//! The boolean gadget: a wire constrained to zero or one together with its
//! `bool` value.

use vstd::prelude::*;

use crate::allocator::Allocator;
use crate::element::Element;
use crate::error::Error;
use crate::field::{
    fadd, fmul, fsub, lemma_fadd_zero, lemma_fmul_one, lemma_fmul_zero, lemma_fp_bounded,
    lemma_fsub_add, lemma_fsub_int, lemma_mod_eq_iff, p, Fp,
};
use crate::simulator::{Coeff, DirectSum, Simulator};

verus! {

broadcast use lemma_fp_bounded;

/// The field value of a bit.
pub open spec fn bit(b: bool) -> nat {
    if b {
        1
    } else {
        0
    }
}

/// The coefficient of a bit.
pub fn bit_coeff(b: bool) -> (r: Coeff)
    ensures
        r.val() == bit(b),
{
    if b {
        Coeff::One
    } else {
        Coeff::Zero
    }
}

/// A wire constrained to zero or one, with its `bool` value.
#[derive(Clone, Copy, Debug)]
pub struct Boolean {
    wire: Fp,
    value: bool,
}

impl Boolean {
    /// The value carried by the wire.
    pub closed spec fn wire_val(&self) -> nat {
        self.wire@
    }

    /// The witness value.
    pub closed spec fn val(&self) -> bool {
        self.value
    }

    /// Whether the wire carries the bit of the witness value.
    pub open spec fn consistent(&self) -> bool {
        self.wire_val() == bit(self.val())
    }

    /// Allocates a boolean with one gate and two constraints, and donates
    /// its unused `D` wire to `allocator`.
    pub fn allocate<A: Allocator>(dr: &mut Simulator, allocator: &mut A, value: bool) -> (r: Result<
        Boolean,
        Error,
    >)
        requires
            old(dr).room(1, 2),
        ensures
            r matches Ok(b) && {
                &&& b.val() == value
                &&& b.consistent()
                &&& old(dr).grew(*final(dr), 1, 2)
                &&& old(allocator).donate_post(true, *final(allocator))
            },
    {
        let complement = !value;
        proof {
            lemma_fmul_zero(1);
            lemma_fmul_one(0);
        }
        let (a, b, c, extra) = dr.gate(bit_coeff(value), bit_coeff(complement), Coeff::Zero)?;
        proof {
            lemma_fmul_one(c@);
            lemma_fadd_zero(c@);
        }
        dr.enforce_zero(DirectSum::new().add(&c))?;
        proof {
            lemma_fmul_one(1);
            lemma_fmul_one(a@);
            lemma_fmul_one(b@);
            lemma_fadd_zero(1);
            lemma_fsub_int(1, a@);
            lemma_fsub_int(fsub(1, a@), b@);
            vstd::arithmetic::div_mod::lemma_small_mod(0, p());
            vstd::arithmetic::div_mod::lemma_small_mod(1, p());
        }
        dr.enforce_zero(DirectSum::new().add(&Simulator::one()).sub(&a).sub(&b))?;
        allocator.donate(extra);
        Ok(Boolean { value, wire: a })
    }

    /// The logical NOT; free in the circuit model.
    pub fn not(&self, dr: &mut Simulator) -> (r: Boolean)
        ensures
            r.val() == !self.val(),
            r.wire_val() == fsub(1, self.wire_val()),
            self.consistent() ==> r.consistent(),
            *final(dr) == *old(dr),
    {
        proof {
            lemma_fmul_one(1);
            lemma_fmul_one(self.wire@);
            lemma_fadd_zero(1);
            lemma_fsub_int(1, self.wire@);
            vstd::arithmetic::div_mod::lemma_small_mod(0, p());
            vstd::arithmetic::div_mod::lemma_small_mod(1, p());
        }
        let wire = dr.add(DirectSum::new().add(&Simulator::one()).sub(&self.wire));
        Boolean { wire, value: !self.value }
    }

    /// The logical AND, at the cost of one gate and two constraints.
    pub fn and(&self, dr: &mut Simulator, other: &Boolean) -> (r: Result<Boolean, Error>)
        requires
            old(dr).room(1, 2),
        ensures
            r is Ok <==> self.consistent() && other.consistent(),
            r matches Ok(b) ==> {
                &&& b.val() == (self.val() && other.val())
                &&& b.consistent()
                &&& old(dr).grew(*final(dr), 1, 2)
            },
    {
        let result = self.value && other.value;
        proof {
            lemma_fmul_zero(0);
            lemma_fmul_zero(1);
            lemma_fmul_one(1);
        }
        let (a, b, c) = dr.mul(bit_coeff(self.value), bit_coeff(other.value), bit_coeff(result))?;
        dr.enforce_equal(&a, &self.wire)?;
        dr.enforce_equal(&b, &other.wire)?;
        Ok(Boolean { value: result, wire: c })
    }

    /// Returns `a` when false and `b` when true, at the cost of one gate and
    /// two constraints.
    pub fn conditional_select(&self, dr: &mut Simulator, a: &Element, b: &Element) -> (r: Result<
        Element,
        Error,
    >)
        requires
            old(dr).room(1, 2),
        ensures
            r is Ok <==> self.consistent() && fsub(b.wire_val(), a.wire_val()) == fsub(b.val(), a.val()),
            r matches Ok(e) ==> {
                &&& e.val() == if self.val() { b.val() } else { a.val() }
                &&& (e.consistent() <==> a.consistent())
                &&& old(dr).grew(*final(dr), 1, 2)
            },
    {
        let diff = b.sub(dr, a);
        let cond = self.element();
        let cond_times_diff = cond.mul(dr, &diff)?;
        let r = a.add(dr, &cond_times_diff);
        proof {
            a.lemma_bounded();
            b.lemma_bounded();
            lemma_fmul_one(diff.val());
            lemma_fmul_zero(diff.val());
            lemma_fadd_zero(a.val());
            lemma_fadd_zero(a.wire_val());
            lemma_fsub_add(b.val(), a.val());
            crate::field::lemma_fadd_comm(fsub(b.val(), a.val()), a.val());
            crate::element::lemma_fadd_cancel(a.val(), a.wire_val(), a.val());
            crate::field::lemma_fadd_comm(a.val(), cond_times_diff.val());
            crate::field::lemma_fadd_comm(a.wire_val(), cond_times_diff.val());
            crate::element::lemma_fadd_cancel(cond_times_diff.val(), a.wire_val(), a.val());
        }
        Ok(r)
    }

    /// Enforces `a == b` when this boolean is true and nothing otherwise, at
    /// the cost of one gate and three constraints; the unused `D` wire of that gate is
    /// donated to `allocator`.
    pub fn conditional_enforce_equal<A: Allocator>(
        &self,
        dr: &mut Simulator,
        allocator: &mut A,
        a: &Element,
        b: &Element,
    ) -> (r: Result<(), Error>)
        requires
            old(dr).room(1, 3),
        ensures
            r is Ok <==> {
                &&& self.val() ==> a.val() == b.val()
                &&& self.consistent()
                &&& fsub(a.val(), b.val()) == fsub(a.wire_val(), b.wire_val())
            },
            r is Ok ==> old(dr).grew(*final(dr), 1, 3) && old(allocator).donate_post(
                true,
                *final(allocator),
            ),
    {
        let diff = a.value().sub(&b.value());
        proof {
            a.lemma_bounded();
            b.lemma_bounded();
            lemma_fmul_zero(diff@);
            lemma_fmul_one(diff@);
            crate::field::lemma_fsub_zero_iff(a.val(), b.val());
        }
        let (cond_wire, diff_wire, zero_wire, extra) = dr.gate(
            bit_coeff(self.value),
            Coeff::Arbitrary(diff),
            Coeff::Zero,
        )?;
        dr.enforce_equal(&cond_wire, &self.wire)?;
        proof {
            lemma_fmul_one(diff_wire@);
            lemma_fmul_one(a.wire_val());
            lemma_fmul_one(b.wire_val());
            lemma_fadd_zero(diff_wire@);
            lemma_fsub_int(diff_wire@, a.wire_val());
            lemma_fsub_int(a.wire_val(), b.wire_val());
            lemma_fsub_int(a.val(), b.val());
            let m = p() as int;
            let t = fsub(diff_wire@, a.wire_val());
            vstd::arithmetic::div_mod::lemma_add_mod_noop(t as int, b.wire_val() as int, m);
            vstd::arithmetic::div_mod::lemma_add_mod_noop(diff_wire@ as int - a.wire_val(), b.wire_val() as int, m);
            vstd::arithmetic::div_mod::lemma_mod_twice(diff_wire@ as int - a.wire_val(), m);
            vstd::arithmetic::div_mod::lemma_add_mod_noop((diff_wire@ as int - a.wire_val()) % m, b.wire_val() as int, m);
            lemma_mod_eq_iff(diff_wire@ as int, a.wire_val() as int - b.wire_val());
            vstd::arithmetic::div_mod::lemma_small_mod(diff_wire@, p());
            vstd::arithmetic::div_mod::lemma_small_mod(fadd(t, b.wire_val()), p());
        }
        dr.enforce_zero(DirectSum::new().add(&diff_wire).sub(&a.wire()).add(&b.wire()))?;
        proof {
            lemma_fmul_one(zero_wire@);
            lemma_fadd_zero(zero_wire@);
        }
        dr.enforce_zero(DirectSum::new().add(&zero_wire))?;
        allocator.donate(extra);
        Ok(())
    }

    /// The witness value.
    pub fn value(&self) -> (r: bool)
        ensures
            r == self.val(),
    {
        self.value
    }

    /// The wire.
    pub fn wire(&self) -> (r: Fp)
        ensures
            r@ == self.wire_val(),
    {
        self.wire
    }

    /// This boolean as an element.
    pub fn element(&self) -> (r: Element)
        ensures
            r.val() == bit(self.val()),
            r.wire_val() == self.wire_val(),
            r.consistent() <==> self.consistent(),
    {
        let v = if self.value {
            Fp::from_u64(1)
        } else {
            Fp::from_u64(0)
        };
        Element::promote(self.wire, v)
    }
}

/// A boolean telling whether `x` is zero, by the inverse trick: the
/// constraints `x * is_zero = 0` and `x * inv = 1 - is_zero` force `is_zero`
/// to be the right bit. Costs two gates and four constraints; the first
/// gate's spare wire is donated to `allocator`.
pub fn is_zero<A: Allocator>(dr: &mut Simulator, allocator: &mut A, x: &Element) -> (r: Result<
    Boolean,
    Error,
>)
    requires
        old(dr).room(2, 4),
    ensures
        r is Ok <==> x.consistent(),
        r matches Ok(b) ==> {
            &&& b.val() == (x.val() == 0)
            &&& b.consistent()
            &&& old(dr).grew(*final(dr), 2, 4)
            &&& old(allocator).donate_post(true, *final(allocator))
        },
{
    let xv = x.value();
    let is_zero = xv.equals(&Fp::from_u64(0));
    proof {
        x.lemma_bounded();
        lemma_fmul_zero(xv@);
        lemma_fmul_zero(1);
    }
    let (x_wire, is_zero_wire, zero_product, extra) = dr.gate(
        Coeff::Arbitrary(xv),
        bit_coeff(is_zero),
        Coeff::Zero,
    )?;
    dr.enforce_equal(&x_wire, &x.wire())?;
    proof {
        lemma_fmul_one(zero_product@);
        lemma_fadd_zero(zero_product@);
    }
    dr.enforce_zero(DirectSum::new().add(&zero_product))?;
    allocator.donate(extra);
    let inv = match xv.invert() {
        Some(inv) => inv,
        None => Fp::from_u64(0),
    };
    proof {
        lemma_fmul_zero(inv@);
    }
    let (x_wire2, _, is_not_zero) = dr.mul(Coeff::Arbitrary(xv), Coeff::Arbitrary(inv), bit_coeff(!is_zero))?;
    dr.enforce_equal(&x_wire2, &x.wire())?;
    proof {
        lemma_fmul_one(1);
        lemma_fmul_one(is_not_zero@);
        lemma_fmul_one(is_zero_wire@);
        lemma_fadd_zero(is_not_zero@);
        lemma_fsub_int(is_not_zero@, 1);
        vstd::arithmetic::div_mod::lemma_small_mod(0, p());
        vstd::arithmetic::div_mod::lemma_small_mod(1, p());
        vstd::arithmetic::div_mod::lemma_mod_self_0(p() as int);
        assert((p() as int - 1) % (p() as int) == p() - 1) by {
            vstd::arithmetic::div_mod::lemma_small_mod((p() - 1) as nat, p());
        }
    }
    dr.enforce_zero(DirectSum::new().add(&is_not_zero).sub(&Simulator::one()).add(&is_zero_wire))?;
    Ok(Boolean { wire: is_zero_wire, value: is_zero })
}

impl Element {
    /// A boolean telling whether this element is zero.
    pub fn is_zero<A: Allocator>(&self, dr: &mut Simulator, allocator: &mut A) -> (r: Result<Boolean, Error>)
        requires
            old(dr).room(2, 4),
        ensures
            r is Ok <==> self.consistent(),
            r matches Ok(b) ==> {
                &&& b.val() == (self.val() == 0)
                &&& b.consistent()
                &&& old(dr).grew(*final(dr), 2, 4)
                &&& old(allocator).donate_post(true, *final(allocator))
            },
    {
        is_zero(dr, allocator, self)
    }

    /// A boolean telling whether this element equals `other`.
    pub fn is_equal<A: Allocator>(&self, dr: &mut Simulator, allocator: &mut A, other: &Element) -> (r:
        Result<Boolean, Error>)
        requires
            old(dr).room(2, 4),
        ensures
            r is Ok <==> fsub(self.wire_val(), other.wire_val()) == fsub(self.val(), other.val()),
            r matches Ok(b) ==> {
                &&& b.val() == (self.val() == other.val())
                &&& b.consistent()
                &&& old(dr).grew(*final(dr), 2, 4)
                &&& old(allocator).donate_post(true, *final(allocator))
            },
    {
        let diff = self.sub(dr, other);
        proof {
            self.lemma_bounded();
            other.lemma_bounded();
            crate::field::lemma_fsub_zero_iff(self.val(), other.val());
        }
        diff.is_zero(dr, allocator)
    }
}

/// The little-endian packing `sum_i s[i] * 2^i` in the field.
pub open spec fn pack2(s: Seq<nat>) -> nat
    decreases s.len(),
{
    if s.len() == 0 {
        0
    } else {
        fadd(pack2(s.drop_last()), fmul(pow2_mod((s.len() - 1) as nat), s.last()))
    }
}

/// `2^k` reduced into the field.
pub open spec fn pow2_mod(k: nat) -> nat
    decreases k,
{
    if k == 0 {
        1
    } else {
        fadd(pow2_mod((k - 1) as nat), pow2_mod((k - 1) as nat))
    }
}

/// The bits carried by a sequence of booleans.
pub open spec fn bool_bits(s: Seq<Boolean>) -> Seq<nat> {
    s.map_values(|b: Boolean| bit(b.val()))
}

/// The wires of a sequence of booleans.
pub open spec fn bool_wires(s: Seq<Boolean>) -> Seq<nat> {
    s.map_values(|b: Boolean| b.wire_val())
}

/// Packs `bits` into field elements, `254` bits per element, little-endian:
/// the first bit of each chunk is the least significant.
#[verifier::spinoff_prover]
pub fn multipack(dr: &mut Simulator, bits: &[Boolean]) -> (r: Result<Vec<Element>, Error>)
    ensures
        *final(dr) == *old(dr),
        r matches Ok(v) && {
            &&& v@.len() == (bits@.len() + 253) / 254
            &&& forall|k: int| 0 <= k < v@.len() ==> {
                let chunk = bits@.subrange(254 * k, vstd::math::min(254 * k + 254, bits@.len() as int));
                &&& #[trigger] v@[k].val() == pack2(bool_bits(chunk))
                &&& v@[k].wire_val() == pack2(bool_wires(chunk))
            }
        },
{
    let capacity = Fp::capacity() as usize;
    let n = bits.len();
    let mut v: Vec<Element> = Vec::new();
    let mut start: usize = 0;
    while start < n
        invariant
            capacity == 254,
            n == bits@.len(),
            start == vstd::math::min(254 * v@.len() as int, n as int),
            v@.len() <= (n + 253) / 254,
            *dr == *old(dr),
            forall|k: int| 0 <= k < v@.len() ==> {
                let chunk = bits@.subrange(254 * k, vstd::math::min(254 * k + 254, bits@.len() as int));
                &&& #[trigger] v@[k].val() == pack2(bool_bits(chunk))
                &&& v@[k].wire_val() == pack2(bool_wires(chunk))
            },
        decreases n - start,
    {
        let end = if n - start < capacity {
            n
        } else {
            start + capacity
        };
        let ghost chunk = bits@.subrange(start as int, end as int);
        let mut value = Fp::from_u64(0);
        let mut lc = DirectSum::new();
        let mut gain = lc.gain;
        proof {
            assert(bits@.subrange(start as int, start as int) =~= Seq::<Boolean>::empty());
            assert(bool_bits(bits@.subrange(start as int, start as int)) =~= Seq::<nat>::empty());
            assert(bool_wires(bits@.subrange(start as int, start as int)) =~= Seq::<nat>::empty());
        }
        let mut j = start;
        while j < end
            invariant
                start <= j <= end <= n,
                n == bits@.len(),
                chunk == bits@.subrange(start as int, end as int),
                value@ == pack2(bool_bits(bits@.subrange(start as int, j as int))),
                lc.value@ == pack2(bool_wires(bits@.subrange(start as int, j as int))),
                gain@ == pow2_mod((j - start) as nat),
                lc.gain == gain,
            decreases end - j,
        {
            let ghost prev = bits@.subrange(start as int, j as int);
            let ghost next = bits@.subrange(start as int, j + 1);
            let ghost g0 = gain@;
            let ghost v0 = value@;
            if bits[j].value() {
                value = value.add(&gain);
            }
            lc = lc.add(&bits[j].wire());
            gain = gain.add(&gain);
            lc.gain = gain;
            proof {
                assert(next.drop_last() =~= prev);
                assert(next.last() == bits@[j as int]);
                assert(bool_bits(next).drop_last() =~= bool_bits(prev));
                assert(bool_bits(next).last() == bit(bits@[j as int].val()));
                assert(bool_wires(next).last() == bits@[j as int].wire_val());
                assert(bool_wires(next).drop_last() =~= bool_wires(prev));
                assert(next.len() == prev.len() + 1);
                lemma_fmul_one(g0);
                lemma_fmul_zero(g0);
                crate::field::lemma_fmul_comm(bits@[j as int].wire_val(), pow2_mod((j - start) as nat));
                if !bits@[j as int].val() {
                    lemma_fadd_zero(v0);
                }
                crate::field::lemma_fmul_comm(1, pow2_mod((j - start) as nat));
                assert(pack2(bool_bits(next)) == fadd(
                    pack2(bool_bits(prev)),
                    fmul(pow2_mod((j - start) as nat), bit(bits@[j as int].val())),
                ));
                assert(pack2(bool_wires(next)) == fadd(
                    pack2(bool_wires(prev)),
                    fmul(pow2_mod((j - start) as nat), bits@[j as int].wire_val()),
                ));
            }
            j = j + 1;
        }
        let wire = dr.add(lc);
        let ghost old_v = v@;
        v.push(Element::promote(wire, value));
        proof {
            assert forall|k: int| 0 <= k < v@.len() implies {
                let chunk = bits@.subrange(254 * k, vstd::math::min(254 * k + 254, bits@.len() as int));
                &&& #[trigger] v@[k].val() == pack2(bool_bits(chunk))
                &&& v@[k].wire_val() == pack2(bool_wires(chunk))
            } by {
                if k < old_v.len() {
                    assert(v@[k] == old_v[k]);
                } else {
                    assert(254 * k == start);
                }
            }
        }
        proof {
            assert(v@.len() + 1 <= (n + 253) / 254 + 1);
            assert(254 * old_v.len() < n);
            assert(old_v.len() + 1 <= (n + 253) / 254) by (nonlinear_arith)
                requires
                    254 * old_v.len() < n;
        }
        start = end;
    }
    proof {
        assert(254 * v@.len() >= n);
        assert(v@.len() >= (n + 253) / 254) by (nonlinear_arith)
            requires
                254 * v@.len() >= n;
    }
    Ok(v)
}

} // verus!
