//! The field element gadget: a wire together with the value assigned to it.

use vstd::prelude::*;

use crate::allocator::Allocator;
use crate::error::{Error, WitnessError};
use crate::field::{fadd, fdiv, fmul, fneg, fsub, lemma_fdiv_unique, lemma_fadd_zero, lemma_fsub_zero_iff, lemma_fmul_assoc, lemma_fmul_comm, lemma_fmul_one, lemma_fp_bounded, p, Fp};
use crate::simulator::{Coeff, DirectSum, Simulator};

verus! {

broadcast use lemma_fp_bounded;

/// Horner evaluation of `s` at `x`: the first entry carries the highest
/// power of `x`, the last entry none.
pub open spec fn horner(s: Seq<nat>, x: nat) -> nat
    decreases s.len(),
{
    if s.len() == 0 {
        0
    } else {
        fadd(fmul(horner(s.drop_last(), x), x), s.last())
    }
}

/// The sum of `s` in the field.
pub open spec fn fsum(s: Seq<nat>) -> nat
    decreases s.len(),
{
    if s.len() == 0 {
        0
    } else {
        fadd(fsum(s.drop_last()), s.last())
    }
}

/// The linear combination `sum_i cs[i] * vs[i]` in the field.
pub open spec fn flin(vs: Seq<nat>, cs: Seq<nat>) -> nat
    decreases vs.len(),
{
    if vs.len() == 0 {
        0
    } else {
        fadd(flin(vs.drop_last(), cs.take(vs.len() - 1)), fmul(vs.last(), cs[vs.len() - 1]))
    }
}

/// `v` squared `k` times, that is `v^(2^k)`.
pub open spec fn square_times(v: nat, k: nat) -> nat
    decreases k,
{
    if k == 0 {
        v
    } else {
        let w = square_times(v, (k - 1) as nat);
        fmul(w, w)
    }
}

/// A wire and the value assigned to it. The simulator rejects any gadget
/// operation whose inputs carry a wire that disagrees with its value.
#[derive(Clone, Copy, Debug)]
pub struct Element {
    wire: Fp,
    value: Fp,
}

/// The values carried by a sequence of elements.
pub open spec fn vals(s: Seq<Element>) -> Seq<nat> {
    s.map_values(|e: Element| e.val())
}

/// The wires carried by a sequence of elements.
pub open spec fn wires(s: Seq<Element>) -> Seq<nat> {
    s.map_values(|e: Element| e.wire_val())
}

/// Whether every element of `s` carries its own value on its wire.
pub open spec fn all_consistent(s: Seq<Element>) -> bool {
    forall|i: int| 0 <= i < s.len() ==> #[trigger] s[i].consistent()
}

impl Element {
    /// The value carried by the wire.
    pub closed spec fn wire_val(&self) -> nat {
        self.wire@
    }

    /// The witness value assigned to the element.
    pub closed spec fn val(&self) -> nat {
        self.value@
    }

    /// Whether the wire carries the assigned value.
    pub open spec fn consistent(&self) -> bool {
        self.wire_val() == self.val()
    }

    pub proof fn lemma_bounded(&self)
        ensures
            self.wire_val() < p(),
            self.val() < p(),
    {
    }

    /// Allocates an element with the provided witness, using `allocator` to
    /// create the wire.
    pub fn allocate<A: Allocator>(dr: &mut Simulator, allocator: &mut A, assignment: Fp) -> (r:
        Result<Element, Error>)
        requires
            old(dr).room(1, 0),
        ensures
            r is Ok <==> old(allocator).alloc_ok(assignment@),
            r matches Ok(e) ==> {
                &&& e.val() == assignment@
                &&& e.consistent()
                &&& old(allocator).alloc_post(*final(allocator))
                &&& old(dr).grew(*final(dr), if old(allocator).alloc_uses_gate() { 1 } else { 0 }, 0)
            },
    {
        let wire = allocator.allocate(dr, Coeff::Arbitrary(assignment))?;
        Ok(Element { value: assignment, wire })
    }

    /// Allocates `a` and squares it with a single gate, returning `(a, a^2)`.
    pub fn alloc_square(dr: &mut Simulator, assignment: Fp) -> (r: Result<(Element, Element), Error>)
        requires
            old(dr).room(1, 1),
        ensures
            r matches Ok((a, sq)) && {
                &&& a.val() == assignment@ && a.consistent()
                &&& sq.val() == fmul(assignment@, assignment@) && sq.consistent()
                &&& old(dr).grew(*final(dr), 1, 1)
            },
    {
        let square = assignment.mul(&assignment);
        let (a, b, c) = dr.mul(Coeff::Arbitrary(assignment), Coeff::Arbitrary(assignment), Coeff::Arbitrary(square))?;
        dr.enforce_equal(&a, &b)?;
        Ok((Element { value: assignment, wire: a }, Element { value: square, wire: c }))
    }

    /// The constant one.
    pub fn one() -> (r: Element)
        ensures
            r.val() == 1,
            r.consistent(),
    {
        Element { value: Fp::from_u64(1), wire: Simulator::one() }
    }

    /// The constant zero.
    pub fn zero(dr: &mut Simulator) -> (r: Element)
        ensures
            r.val() == 0,
            r.consistent(),
            *final(dr) == *old(dr),
    {
        let wire = dr.constant(Coeff::Zero);
        Element { value: Fp::from_u64(0), wire }
    }

    /// A constant.
    pub fn constant(dr: &mut Simulator, value: Fp) -> (r: Element)
        ensures
            r.val() == value@,
            r.consistent(),
            *final(dr) == *old(dr),
    {
        let wire = dr.constant(Coeff::Arbitrary(value));
        Element { value, wire }
    }

    /// An element from a wire and a witness value; the caller is responsible
    /// for their agreement.
    pub fn promote(wire: Fp, value: Fp) -> (r: Element)
        ensures
            r.wire_val() == wire@,
            r.val() == value@,
    {
        Element { wire, value }
    }

    /// The witness value.
    pub fn value(&self) -> (r: Fp)
        ensures
            r@ == self.val(),
    {
        self.value
    }

    /// The wire.
    pub fn wire(&self) -> (r: Fp)
        ensures
            r@ == self.wire_val(),
    {
        self.wire
    }

    /// The product of two elements, at the cost of one gate.
    pub fn mul(&self, dr: &mut Simulator, other: &Element) -> (r: Result<Element, Error>)
        requires
            old(dr).room(1, 2),
        ensures
            r is Ok <==> self.consistent() && other.consistent(),
            r matches Ok(e) ==> {
                &&& e.val() == fmul(self.val(), other.val())
                &&& e.consistent()
                &&& old(dr).grew(*final(dr), 1, 2)
            },
            r matches Err(e) ==> e == Error::InvalidWitness(WitnessError::ConstraintFailed),
    {
        let product = self.value.mul(&other.value);
        let (a, b, c) = dr.mul(Coeff::Arbitrary(self.value), Coeff::Arbitrary(other.value), Coeff::Arbitrary(product))?;
        dr.enforce_equal(&a, &self.wire)?;
        dr.enforce_equal(&b, &other.wire)?;
        Ok(Element { value: product, wire: c })
    }

    /// The square of this element.
    pub fn square(&self, dr: &mut Simulator) -> (r: Result<Element, Error>)
        requires
            old(dr).room(1, 2),
        ensures
            r is Ok <==> self.consistent(),
            r matches Ok(e) ==> {
                &&& e.val() == fmul(self.val(), self.val())
                &&& e.consistent()
                &&& old(dr).grew(*final(dr), 1, 2)
            },
            r matches Err(e) ==> e == Error::InvalidWitness(WitnessError::ConstraintFailed),
    {
        self.mul(dr, self)
    }

    /// Enforces that this element is zero.
    pub fn enforce_zero(&self, dr: &mut Simulator) -> (r: Result<(), Error>)
        requires
            old(dr).room(0, 1),
        ensures
            r is Ok <==> self.wire_val() == 0,
            r is Ok ==> old(dr).grew(*final(dr), 0, 1),
    {
        proof {
            lemma_fmul_one(self.wire@);
            lemma_fadd_zero(self.wire@);
        }
        dr.enforce_zero(DirectSum::new().add(&self.wire))
    }

    /// Enforces that this element and `other` are equal, with one linear
    /// constraint on their wires.
    pub fn enforce_equal(&self, dr: &mut Simulator, other: &Element) -> (r: Result<(), Error>)
        requires
            old(dr).room(0, 1),
        ensures
            r is Ok <==> self.wire_val() == other.wire_val(),
            r is Ok ==> old(dr).grew(*final(dr), 0, 1),
            r is Err ==> *final(dr) == *old(dr),
    {
        dr.enforce_equal(&self.wire, &other.wire)
    }

    /// The sum of two elements; free in the circuit model.
    pub fn add(&self, dr: &mut Simulator, other: &Element) -> (r: Element)
        ensures
            r.val() == fadd(self.val(), other.val()),
            r.wire_val() == fadd(self.wire_val(), other.wire_val()),
            *final(dr) == *old(dr),
    {
        let value = self.value.add(&other.value);
        proof {
            lemma_fmul_one(self.wire@);
            lemma_fmul_one(other.wire@);
            lemma_fadd_zero(self.wire@);
        }
        let wire = dr.add(DirectSum::new().add(&self.wire).add(&other.wire));
        Element { value, wire }
    }

    /// The difference of two elements; free in the circuit model.
    pub fn sub(&self, dr: &mut Simulator, other: &Element) -> (r: Element)
        ensures
            r.val() == fsub(self.val(), other.val()),
            r.wire_val() == fsub(self.wire_val(), other.wire_val()),
            *final(dr) == *old(dr),
    {
        let value = self.value.sub(&other.value);
        proof {
            lemma_fmul_one(self.wire@);
            lemma_fmul_one(other.wire@);
            lemma_fadd_zero(self.wire@);
        }
        let wire = dr.add(DirectSum::new().add(&self.wire).sub(&other.wire));
        Element { value, wire }
    }

    /// `self + other * coeff`; free in the circuit model.
    pub fn add_coeff(&self, dr: &mut Simulator, other: &Element, coeff: Coeff) -> (r: Element)
        ensures
            r.val() == fadd(self.val(), fmul(other.val(), coeff.val())),
            r.wire_val() == fadd(self.wire_val(), fmul(other.wire_val(), coeff.val())),
            *final(dr) == *old(dr),
    {
        let c = coeff.value();
        let value = self.value.add(&other.value.mul(&c));
        proof {
            lemma_fmul_one(self.wire@);
            lemma_fadd_zero(self.wire@);
            lemma_fmul_one(c@);
            lemma_fmul_comm(c@, other.wire@);
        }
        let wire = dr.add(DirectSum::new().add(&self.wire).add_term(&other.wire, coeff));
        Element { value, wire }
    }

    /// This element scaled by a constant; free in the circuit model.
    pub fn scale(&self, dr: &mut Simulator, coeff: Coeff) -> (r: Element)
        ensures
            r.val() == fmul(self.val(), coeff.val()),
            r.wire_val() == fmul(self.wire_val(), coeff.val()),
            *final(dr) == *old(dr),
    {
        let c = coeff.value();
        let value = self.value.mul(&c);
        proof {
            lemma_fmul_one(c@);
            lemma_fmul_comm(c@, self.wire@);
            lemma_fadd_zero(fmul(self.wire@, c@));
        }
        let wire = dr.add(DirectSum::new().add_term(&self.wire, coeff));
        Element { value, wire }
    }

    /// The negation of this element; free in the circuit model.
    pub fn negate(&self, dr: &mut Simulator) -> (r: Element)
        ensures
            r.val() == fneg(self.val()),
            r.wire_val() == fneg(self.wire_val()),
            *final(dr) == *old(dr),
    {
        proof {
            lemma_fmul_minus_one(self.val());
            lemma_fmul_minus_one(self.wire_val());
        }
        self.scale(dr, Coeff::NegativeOne)
    }

    /// Twice this element; free in the circuit model.
    pub fn double(&self, dr: &mut Simulator) -> (r: Element)
        ensures
            r.val() == fadd(self.val(), self.val()),
            r.wire_val() == fadd(self.wire_val(), self.wire_val()),
            *final(dr) == *old(dr),
    {
        self.add(dr, self)
    }

    /// Enforces `self * inverse = 1` and returns `inverse` as an element.
    pub fn invert_with(&self, dr: &mut Simulator, inverse: Fp) -> (r: Result<Element, Error>)
        requires
            old(dr).room(1, 2),
        ensures
            r is Ok <==> fmul(self.val(), inverse@) == 1 && self.consistent(),
            r matches Ok(e) ==> {
                &&& e.val() == inverse@
                &&& e.consistent()
                &&& old(dr).grew(*final(dr), 1, 2)
            },
    {
        let (a, b, c) = dr.mul(Coeff::Arbitrary(self.value), Coeff::Arbitrary(inverse), Coeff::One)?;
        dr.enforce_equal(&a, &self.wire)?;
        dr.enforce_equal(&c, &Simulator::one())?;
        Ok(Element { value: inverse, wire: b })
    }

    /// The inverse of this element, which must be nonzero.
    pub fn invert(&self, dr: &mut Simulator) -> (r: Result<Element, Error>)
        requires
            old(dr).room(1, 2),
        ensures
            r is Ok <==> self.val() != 0 && self.consistent(),
            r matches Ok(e) ==> {
                &&& e.val() == fdiv(1, self.val())
                &&& fmul(self.val(), e.val()) == 1
                &&& e.consistent()
                &&& old(dr).grew(*final(dr), 1, 2)
            },
            self.val() == 0 ==> r == Err::<Element, Error>(Error::InvalidWitness(WitnessError::DivisionByZero)),
    {
        let inverse = match self.value.invert() {
            Some(inv) => inv,
            None => return Err(Error::InvalidWitness(WitnessError::DivisionByZero)),
        };
        proof {
            lemma_fmul_comm(inverse@, self.value@);
            lemma_fdiv_unique(1, self.value@, inverse@, inverse@);
        }
        self.invert_with(dr, inverse)
    }

    /// The quotient `self / by`, which requires `by` to be nonzero.
    pub fn div_nonzero(&self, dr: &mut Simulator, by: &Element) -> (r: Result<Element, Error>)
        requires
            old(dr).room(1, 2),
        ensures
            r is Ok <==> by.val() != 0 && self.consistent() && by.consistent(),
            r matches Ok(q) ==> {
                &&& q.val() == fdiv(self.val(), by.val())
                &&& fmul(q.val(), by.val()) == self.val()
                &&& q.consistent()
                &&& old(dr).grew(*final(dr), 1, 2)
            },
            by.val() == 0 ==> r == Err::<Element, Error>(Error::InvalidWitness(WitnessError::DivisionByZero)),
    {
        let inv = match by.value.invert() {
            Some(inv) => inv,
            None => return Err(Error::InvalidWitness(WitnessError::DivisionByZero)),
        };
        let quotient = self.value.mul(&inv);
        proof {
            lemma_fmul_assoc(self.value@, inv@, by.value@);
            lemma_fmul_comm(inv@, by.value@);
            lemma_fmul_one(self.value@);
            lemma_fdiv_unique(self.value@, by.value@, quotient@, inv@);
        }
        let (q, d, n) = dr.mul(Coeff::Arbitrary(quotient), Coeff::Arbitrary(by.value), Coeff::Arbitrary(self.value))?;
        dr.enforce_equal(&self.wire, &n)?;
        dr.enforce_equal(&by.wire, &d)?;
        Ok(Element { value: quotient, wire: q })
    }
}

impl Element {
    /// The weighted sum of `elements` by powers of `scale_factor`, by Horner's
    /// rule: the first element is scaled by the highest power, the last by
    /// none. An empty sequence folds to zero.
    pub fn fold(dr: &mut Simulator, elements: &[Element], scale_factor: &Element) -> (r: Result<Element, Error>)
        requires
            old(dr).room(elements@.len(), 2 * elements@.len()),
        ensures
            r is Ok <==> (elements@.len() <= 1 || (scale_factor.consistent()
                && all_consistent(elements@.drop_last()))),
            r matches Err(e) ==> e == Error::InvalidWitness(WitnessError::ConstraintFailed),
            r matches Ok(e) ==> {
                &&& e.val() == horner(vals(elements@), scale_factor.val())
                &&& elements@.len() == 0 ==> e.consistent()
                &&& elements@.len() > 0 ==> (e.consistent() <==> elements@.last().consistent())
                &&& elements@.len() == 0 ==> *final(dr) == *old(dr)
                &&& elements@.len() > 0 ==> old(dr).grew(*final(dr), (elements@.len() - 1) as nat,
                    (2 * (elements@.len() - 1)) as nat)
            },
    {
        let n = elements.len();
        if n == 0 {
            return Ok(Element::zero(dr));
        }
        let ghost x = scale_factor.val();
        let ghost d0 = *dr;
        let mut acc = elements[0];
        proof {
            let s1 = vals(elements@.take(1));
            assert(s1.len() == 1);
            assert(s1.drop_last() =~= Seq::<nat>::empty());
            assert(horner(s1.drop_last(), x) == 0);
            assert(s1.last() == elements@[0].val());
            crate::field::lemma_fmul_zero(x);
            lemma_fadd_zero(elements@[0].val());
        }
        let mut i: usize = 1;
        while i < n
            invariant
                1 <= i <= n,
                n == elements@.len(),
                x == scale_factor.val(),
                acc.val() == horner(vals(elements@.take(i as int)), x),
                acc.consistent() <==> elements@[i - 1].consistent(),
                i >= 2 ==> scale_factor.consistent(),
                forall|j: int| 0 <= j < i - 1 ==> #[trigger] elements@[j].consistent(),
                d0.grew(*dr, (i - 1) as nat, (2 * (i - 1)) as nat),
                d0.room(n as nat, 2 * n as nat),
            decreases n - i,
        {
            let scaled = match acc.mul(dr, scale_factor) {
                Ok(s) => s,
                Err(e) => {
                    proof {
                        assert(!(scale_factor.consistent() && all_consistent(elements@.drop_last())))
                            by {
                            if scale_factor.consistent() && all_consistent(elements@.drop_last()) {
                                assert(elements@.drop_last()[i - 1] == elements@[i - 1]);
                            }
                        }
                    }
                    return Err(e);
                },
            };
            acc = scaled.add(dr, &elements[i]);
            proof {
                assert(vals(elements@.take(i + 1)).drop_last() =~= vals(elements@.take(i as int)));
                lemma_fadd_cancel(scaled.val(), elements@[i as int].wire_val(), elements@[i as int].val());
            }
            i = i + 1;
        }
        proof {
            assert(elements@.take(n as int) =~= elements@);
            if n >= 2 {
                assert forall|j: int| 0 <= j < elements@.drop_last().len() implies
                    #[trigger] elements@.drop_last()[j].consistent() by {
                    assert(elements@.drop_last()[j] == elements@[j]);
                }
            }
        }
        Ok(acc)
    }

    /// The sum of `elements`; free in the circuit model.
    pub fn sum(dr: &mut Simulator, elements: &[Element]) -> (r: Element)
        ensures
            r.val() == fsum(vals(elements@)),
            r.wire_val() == fsum(wires(elements@)),
            *final(dr) == *old(dr),
    {
        let mut acc = Element::zero(dr);
        let mut i: usize = 0;
        while i < elements.len()
            invariant
                i <= elements@.len(),
                acc.val() == fsum(vals(elements@.take(i as int))),
                acc.wire_val() == fsum(wires(elements@.take(i as int))),
                *dr == *old(dr),
            decreases elements@.len() - i,
        {
            acc = acc.add(dr, &elements[i]);
            proof {
                assert(vals(elements@.take(i + 1)).drop_last() =~= vals(elements@.take(i as int)));
                assert(wires(elements@.take(i + 1)).drop_last() =~= wires(elements@.take(i as int)));
            }
            i = i + 1;
        }
        proof {
            assert(elements@.take(elements@.len() as int) =~= elements@);
        }
        acc
    }

    /// Enforces that this element is a `2^k`-th root of unity.
    pub fn enforce_root_of_unity(&self, dr: &mut Simulator, k: u32) -> (r: Result<(), Error>)
        requires
            old(dr).room(k as nat, (2 * k + 1) as nat),
        ensures
            r is Ok <==> if k == 0 {
                self.wire_val() == 1
            } else {
                self.consistent() && square_times(self.val(), k as nat) == 1
            },
            r is Ok ==> old(dr).grew(*final(dr), k as nat, (2 * k + 1) as nat),
    {
        let ghost d0 = *dr;
        let mut value = *self;
        let mut i: u32 = 0;
        while i < k
            invariant
                i <= k,
                i == 0 ==> value == *self,
                i > 0 ==> value.consistent() && self.consistent(),
                value.val() == square_times(self.val(), i as nat),
                d0.grew(*dr, i as nat, 2 * i as nat),
                d0.room(k as nat, (2 * k + 1) as nat),
            decreases k - i,
        {
            value = value.square(dr)?;
            i = i + 1;
        }
        let one = Element::one();
        let diff = value.sub(dr, &one);
        proof {
            lemma_fsub_zero_iff(value.wire_val(), 1);
        }
        diff.enforce_zero(dr)
    }
}

/// A fixed linear combination `sum_i coeffs[i] * values[i]`; free in the
/// circuit model.
pub fn multiadd(dr: &mut Simulator, values: &[Element], coeffs: &[Fp]) -> (r: Element)
    requires
        values@.len() == coeffs@.len(),
    ensures
        r.val() == flin(vals(values@), coeffs@.map_values(|c: Fp| c@)),
        r.wire_val() == flin(wires(values@), coeffs@.map_values(|c: Fp| c@)),
        *final(dr) == *old(dr),
{
    let ghost cs = coeffs@.map_values(|c: Fp| c@);
    let mut sum = Fp::from_u64(0);
    let mut lc = DirectSum::new();
    let mut i: usize = 0;
    while i < values.len()
        invariant
            i <= values@.len(),
            values@.len() == coeffs@.len(),
            cs == coeffs@.map_values(|c: Fp| c@),
            sum@ == flin(vals(values@.take(i as int)), cs.take(i as int)),
            lc.value@ == flin(wires(values@.take(i as int)), cs.take(i as int)),
            lc.gain@ == 1,
        decreases values@.len() - i,
    {
        sum = sum.add(&values[i].value().mul(&coeffs[i]));
        lc = lc.add_term(&values[i].wire(), Coeff::Arbitrary(coeffs[i]));
        proof {
            let c = coeffs@[i as int]@;
            lemma_fmul_one(c);
            lemma_fmul_comm(c, values@[i as int].wire_val());
            assert(vals(values@.take(i + 1)).drop_last() =~= vals(values@.take(i as int)));
            assert(wires(values@.take(i + 1)).drop_last() =~= wires(values@.take(i as int)));
            assert(cs.take(i + 1).take(i as int) =~= cs.take(i as int));
        }
        i = i + 1;
    }
    proof {
        assert(values@.take(values@.len() as int) =~= values@);
        assert(cs.take(values@.len() as int) =~= cs);
    }
    let wire = dr.add(lc);
    Element::promote(wire, sum)
}

/// Adding the same value cancels.
pub proof fn lemma_fadd_cancel(x: nat, a: nat, b: nat)
    requires
        a < p(),
        b < p(),
    ensures
        (fadd(x, a) == fadd(x, b)) <==> (a == b),
{
    let m = p() as int;
    if fadd(x, a) == fadd(x, b) {
        vstd::arithmetic::div_mod::lemma_fundamental_div_mod((x + a) as int, m);
        vstd::arithmetic::div_mod::lemma_fundamental_div_mod((x + b) as int, m);
        let qa = (x + a) as int / m;
        let qb = (x + b) as int / m;
        assert(a - b == (qa - qb) * m) by (nonlinear_arith)
            requires
                (x + a) as int == m * qa + (x + a) as int % m,
                (x + b) as int == m * qb + (x + b) as int % m,
                (x + a) as int % m == (x + b) as int % m;
        if qa - qb > 0 {
            assert((qa - qb) * m >= m) by (nonlinear_arith)
                requires
                    qa - qb >= 1,
                    m > 0;
        } else if qa - qb < 0 {
            assert((qa - qb) * m <= -m) by (nonlinear_arith)
                requires
                    qa - qb <= -1,
                    m > 0;
        }
    }
}

/// Multiplying by `p - 1` negates.
pub proof fn lemma_fmul_minus_one(a: nat)
    requires
        a < p(),
    ensures
        fmul(a, (p() - 1) as nat) == fneg(a),
{
    let m = p() as int;
    if a == 0 {
    } else {
        assert(a * (m - 1) == (a - 1) * m + (m - a)) by (nonlinear_arith);
        vstd::arithmetic::div_mod::lemma_mod_multiples_vanish(a - 1, m - a, m);
        vstd::arithmetic::div_mod::lemma_small_mod((m - a) as nat, p());
        vstd::arithmetic::div_mod::lemma_small_mod(a, p());
    }
}

/// Allocates each value of `data` with `allocator`, in order. An allocator
/// that accepts every value never fails, and one that opens a gate for
/// every value spends one per value.
pub fn allocate_all<A: Allocator>(dr: &mut Simulator, allocator: &mut A, data: &[Fp]) -> (r: Result<
    Vec<Element>,
    Error,
>)
    requires
        old(dr).room(data@.len(), 0),
    ensures
        old(allocator).reliable() ==> r is Ok && final(allocator).reliable(),
        r matches Ok(v) ==> {
            &&& vals(v@) == data@.map_values(|f: Fp| f@)
            &&& all_consistent(v@)
            &&& old(dr).gates() <= final(dr).gates() <= old(dr).gates() + data@.len()
            &&& final(dr).constraints() == old(dr).constraints()
            &&& (forall|a: A| #[trigger] a.alloc_uses_gate()) ==> old(dr).grew(*final(dr), data@.len(), 0)
        },
{
    let ghost d0 = *dr;
    let mut out: Vec<Element> = Vec::new();
    let mut i: usize = 0;
    while i < data.len()
        invariant
            i <= data@.len(),
            out@.len() == i,
            d0.room(data@.len(), 0),
            d0.gates() <= dr.gates() <= d0.gates() + i,
            dr.constraints() == d0.constraints(),
            (forall|a: A| #[trigger] a.alloc_uses_gate()) ==> dr.gates() == d0.gates() + i,
            old(allocator).reliable() ==> allocator.reliable(),
            forall|j: int| 0 <= j < i ==> (#[trigger] out@[j]).val() == data@[j]@ && out@[j].consistent(),
        decreases data@.len() - i,
    {
        let ghost a0 = *allocator;
        let ghost v0 = data@[i as int]@;
        let e = match Element::allocate(dr, allocator, data[i]) {
            Ok(e) => e,
            Err(err) => {
                proof {
                    assert(!a0.alloc_ok(data@[i as int]@));
                    if a0.reliable() {
                        a0.lemma_reliable(v0, a0);
                    }
                }
                return Err(err);
            },
        };
        proof {
            if forall|a: A| #[trigger] a.alloc_uses_gate() {
                assert(a0.alloc_uses_gate());
            }
            if a0.reliable() {
                a0.lemma_reliable(v0, *allocator);
            }
        }
        out.push(e);
        i = i + 1;
    }
    proof {
        assert(vals(out@) =~= data@.map_values(|f: Fp| f@));
    }
    Ok(out)
}

} // verus!
