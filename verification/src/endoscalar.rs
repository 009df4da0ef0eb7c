//! Endoscalars: 128-bit challenges that scale Pallas points through the
//! curve's efficient endomorphism, as introduced in Halo
//! (Algorithms 1 and 2 of [BGH19](https://eprint.iacr.org/2019/1021)).

use vstd::prelude::*;

use crate::allocator::Allocator;
use crate::boolean::{bit, Boolean};
use crate::element::Element;
use crate::error::{Error, WitnessError};
use crate::field::{
    fadd, fmul, fneg, fsub, is_square, lemma_fp_bounded, lemma_generator_multiple_square, p, zeta, Fp,
};
use crate::point::{point_add, point_double, point_double_add, double_add_xr, Point};
use crate::simulator::{Coeff, DirectSum, Simulator};

verus! {

broadcast use lemma_fp_bounded;

/// The number of bits of an endoscalar.
pub const ENDOSCALAR_BITS: usize = 128;

/// Bit `i` of `v`, least significant first.
pub open spec fn endo_bit(v: u128, i: int) -> bool {
    (v >> (i as u128)) & 1u128 == 1u128
}

/// The term that the pair of bits `(n, e)` contributes in Algorithm 2 of
/// [BGH19]: `1`, negated when `n` is set and multiplied by `zeta` when `e`
/// is set.
pub open spec fn lift_term(n: bool, e: bool) -> nat {
    let t = if n { fneg(1) } else { 1 };
    if e { fmul(t, zeta()) } else { t }
}

/// The value of Algorithm 2 of [BGH19] on `v` after its first `k` pairs of
/// bits.
pub open spec fn lift_acc(v: u128, k: nat) -> nat
    decreases k,
{
    if k == 0 {
        fadd(fadd(zeta(), 1), fadd(zeta(), 1))
    } else {
        let a = lift_acc(v, (k - 1) as nat);
        fadd(fadd(a, a), lift_term(endo_bit(v, 2 * (k - 1)), endo_bit(v, 2 * (k - 1) + 1)))
    }
}

/// The effective scalar of the endoscalar `v`: the field element that
/// scaling by `v` multiplies points by.
pub open spec fn lift_value(v: u128) -> nat {
    lift_acc(v, 64)
}

/// Bit `i` of `v`, computed.
fn bit_at(v: u128, i: u128) -> (r: bool)
    requires
        i < 128,
    ensures
        r == endo_bit(v, i as int),
{
    (v >> i) & 1u128 == 1u128
}

pub(crate) proof fn lemma_pair_bits(v: u128, s: u128)
    requires
        s < 127,
    ensures
        ((v >> s) & 1u128 != 0u128) == endo_bit(v, s as int),
        ((v >> s) & 2u128 != 0u128) == endo_bit(v, s + 1),
{
    assert(((v >> s) & 1u128 != 0u128) == ((v >> s) & 1u128 == 1u128)) by (bit_vector);
    assert(((v >> s) & 2u128 != 0u128) == ((v >> ((s + 1) as u128)) & 1u128 == 1u128)) by (bit_vector)
        requires
            s < 127,
    ;
}

/// The effective scalar of `endo` in the Pallas base field, by Algorithm 2
/// of [BGH19].
pub fn lift_endoscalar(endo: u128) -> (r: Fp)
    ensures
        r@ == lift_value(endo),
{
    let one = Fp::from_u64(1);
    let z = Fp::zeta();
    let base = z.add(&one);
    let mut acc = base.add(&base);
    let mut i: u128 = 0;
    while i < 64
        invariant
            i <= 64,
            one@ == 1,
            z@ == zeta(),
            acc@ == lift_acc(endo, i as nat),
        decreases 64 - i,
    {
        let bits = endo >> (i * 2);
        proof {
            lemma_pair_bits(endo, (i * 2) as u128);
        }
        let mut tmp = Fp::from_u64(1);
        if bits & 1u128 != 0u128 {
            tmp = tmp.neg();
        }
        if bits & 2u128 != 0u128 {
            tmp = tmp.mul(&z);
        }
        acc = acc.add(&acc).add(&tmp);
        i = i + 1;
    }
    acc
}

/// A challenge of `ENDOSCALAR_BITS` bits that scales points: its bits as
/// booleans, least significant first, and the value they encode.
#[derive(Debug)]
pub struct Endoscalar {
    bits: Vec<Boolean>,
    value: u128,
}

impl Endoscalar {
    #[verifier::type_invariant]
    spec fn well_formed(self) -> bool {
        self.bits@.len() == ENDOSCALAR_BITS
    }

    /// The encoded value.
    pub closed spec fn val(&self) -> u128 {
        self.value
    }

    /// The bit gadgets, least significant first.
    pub closed spec fn bit_gadgets(&self) -> Seq<Boolean> {
        self.bits@
    }

    /// Whether every bit gadget carries its bit of the value, on its wire
    /// and as its witness.
    pub open spec fn consistent(&self) -> bool {
        &&& self.bit_gadgets().len() == ENDOSCALAR_BITS
        &&& forall|i: int|
            0 <= i < ENDOSCALAR_BITS ==> {
                &&& #[trigger] self.bit_gadgets()[i].consistent()
                &&& self.bit_gadgets()[i].val() == endo_bit(self.val(), i)
            }
    }

    /// Allocates the endoscalar `value`, one boolean per bit: 128 gates and
    /// 256 constraints.
    pub fn allocate(dr: &mut Simulator, value: u128) -> (r: Result<Endoscalar, Error>)
        requires
            old(dr).room(128, 256),
        ensures
            r matches Ok(e) && {
                &&& e.val() == value
                &&& e.consistent()
                &&& old(dr).grew(*final(dr), 128, 256)
            },
    {
        let ghost d0 = *dr;
        let mut bits: Vec<Boolean> = Vec::new();
        let mut i: u128 = 0;
        while i < 128
            invariant
                i <= 128,
                bits@.len() == i,
                forall|j: int|
                    0 <= j < i ==> {
                        &&& #[trigger] bits@[j].consistent()
                        &&& bits@[j].val() == endo_bit(value, j)
                    },
                d0.room(128, 256),
                dr.gates() == d0.gates() + i,
                dr.constraints() == d0.constraints() + 2 * i,
            decreases 128 - i,
        {
            let b = bit_at(value, i);
            let mut unit = ();
            let bit = match Boolean::allocate(dr, &mut unit, b) {
                Ok(bit) => bit,
                Err(err) => {
                    proof {
                        assert(false);
                    }
                    return Err(err);
                },
            };
            assert(bit.consistent() && bit.val() == endo_bit(value, i as int));
            let ghost before = bits@;
            bits.push(bit);
            proof {
                assert(bits@ == before.push(bit));
                assert(bits@[i as int] == bit);
                assert forall|j: int| 0 <= j < i + 1 implies {
                    &&& #[trigger] bits@[j].consistent()
                    &&& bits@[j].val() == endo_bit(value, j)
                } by {
                    if j < i {
                        assert(bits@[j] == before[j]);
                    }
                }
            }
            i = i + 1;
        }
        Ok(Endoscalar { bits, value })
    }

    /// The encoded value.
    pub fn value(&self) -> (r: u128)
        ensures
            r == self.val(),
    {
        self.value
    }

    /// The bits, least significant first.
    pub fn bits(&self) -> (r: Vec<Boolean>)
        ensures
            r@ == self.bit_gadgets(),
    {
        proof {
            use_type_invariant(self);
        }
        let mut r: Vec<Boolean> = Vec::new();
        let mut i: usize = 0;
        while i < self.bits.len()
            invariant
                i <= self.bits@.len(),
                r@ == self.bits@.take(i as int),
            decreases self.bits@.len() - i,
        {
            r.push(self.bits[i]);
            proof {
                assert(self.bits@.take(i + 1) == self.bits@.take(i as int).push(self.bits@[i as int]));
            }
            i = i + 1;
        }
        proof {
            assert(self.bits@.take(self.bits@.len() as int) == self.bits@);
        }
        r
    }
}

/// One step of the in-circuit lift keeps `acc + constant` equal to the
/// native value.
proof fn lemma_lift_step(a: nat, c: nat, n: bool, e: bool)
    requires
        a < p(),
        c < p(),
    ensures
        ({
            let na = fmul(bit(n), fneg(2));
            let ea = fmul(bit(e), fsub(zeta(), 1));
            let nea = fmul(bit(n && e), fadd(fsub(1, zeta()), fsub(1, zeta())));
            let acc = fadd(fadd(fadd(fadd(a, a), na), ea), nea);
            let cst = fadd(fadd(c, c), 1);
            let s = fadd(a, c);
            fadd(acc, cst) == fadd(fadd(s, s), lift_term(n, e))
        }),
{
    let m = p() as int;
    let na = fmul(bit(n), fneg(2));
    let ea = fmul(bit(e), fsub(zeta(), 1));
    let nea = fmul(bit(n && e), fadd(fsub(1, zeta()), fsub(1, zeta())));
    let t = lift_term(n, e);
    assert(fsub(1, zeta()) == p() + 1 - zeta());
    assert(fsub(zeta(), 1) == zeta() - 1);
    assert(fneg(2) == p() - 2);
    assert(fadd(fsub(1, zeta()), fsub(1, zeta())) == p() + 2 - 2 * zeta());
    assert(fneg(1) == p() - 1);
    crate::field::lemma_fmul_one(fneg(2));
    crate::field::lemma_fmul_one(fsub(zeta(), 1));
    crate::field::lemma_fmul_one(fadd(fsub(1, zeta()), fsub(1, zeta())));
    crate::field::lemma_fmul_one(zeta());
    crate::field::lemma_fmul_zero(fneg(2));
    crate::field::lemma_fmul_zero(fsub(zeta(), 1));
    crate::field::lemma_fmul_zero(fadd(fsub(1, zeta()), fsub(1, zeta())));
    if n && e {
        let pz = ((p() - 1) * zeta()) as int;
        assert(pz == (zeta() as int - 1) * m + (m - zeta() as int)) by (nonlinear_arith)
            requires
                pz == (m - 1) * zeta(),
        ;
        vstd::arithmetic::div_mod::lemma_fundamental_div_mod_converse(pz, m, zeta() as int - 1, m - zeta() as int);
    }
    // Both sides, as single reductions of integer sums.
    crate::field::lemma_fadd_mod(a + a, na);
    crate::field::lemma_fadd_mod(a + a + na, ea);
    crate::field::lemma_fadd_mod(a + a + na + ea, nea);
    crate::field::lemma_fadd_mod(c + c, 1);
    let x = (a + a + na + ea + nea) as nat;
    let y = (c + c + 1) as nat;
    crate::field::lemma_fadd_mod(x, y);
    crate::field::lemma_fadd_mod(x, y % p());
    let sv = fadd(a, c);
    crate::field::lemma_fadd_mod(a + c, sv);
    crate::field::lemma_fadd_mod(a + c, a + c);
    crate::field::lemma_fadd_mod((a + c + a + c) as nat, t);
    let diff = (x + y) - (a + c + a + c + t);
    assert(diff == 0 || diff == m);
    if diff == m {
        vstd::arithmetic::div_mod::lemma_mod_add_multiples_vanish((a + c + a + c + t) as int, m);
    }
}

impl Endoscalar {
    /// Lifts this endoscalar to its effective scalar as an element: 64
    /// gates and 128 constraints.
    pub fn lift(&self, dr: &mut Simulator) -> (r: Result<Element, Error>)
        requires
            old(dr).room(64, 128),
        ensures
            self.consistent() ==> r is Ok,
            r matches Ok(s) ==> {
                &&& self.consistent() ==> s.val() == lift_value(self.val()) && s.consistent()
                &&& old(dr).grew(*final(dr), 64, 128)
            },
    {
        let one = Fp::from_u64(1);
        let z = Fp::zeta();
        let base = z.add(&one);
        let mut constant_term = base.add(&base);
        let c0 = Fp::from_u64(2).neg();
        let c1 = z.sub(&one);
        let one_sub_zeta = one.sub(&z);
        let c2 = one_sub_zeta.add(&one_sub_zeta);
        let mut acc = Element::zero(dr);
        let bits = self.bits();
        let ghost d0 = *dr;
        let ghost good = self.consistent();
        proof {
            use_type_invariant(self);
            crate::field::lemma_fadd_zero(constant_term@);
        }
        let mut i: usize = 0;
        while i < 64
            invariant
                i <= 64,
                bits@ == self.bit_gadgets(),
                bits@.len() == 128,
                good == self.consistent(),
                one@ == 1,
                z@ == zeta(),
                c0@ == fneg(2),
                c1@ == fsub(zeta(), 1),
                c2@ == fadd(fsub(1, zeta()), fsub(1, zeta())),
                good ==> acc.consistent(),
                good ==> fadd(acc.val(), constant_term@) == lift_acc(self.val(), i as nat),
                d0.room(64, 128),
                dr.gates() == d0.gates() + i,
                dr.constraints() == d0.constraints() + 2 * i,
            decreases 64 - i,
        {
            let n = bits[2 * i];
            let e = bits[2 * i + 1];
            let ne = n.and(dr, &e)?;
            let ghost a = acc.val();
            let ghost c = constant_term@;
            proof {
                acc.lemma_bounded();
            }
            acc = acc.double(dr);
            constant_term = constant_term.add(&constant_term).add(&one);
            let ns = n.element().scale(dr, Coeff::Arbitrary(c0));
            let es = e.element().scale(dr, Coeff::Arbitrary(c1));
            let nes = ne.element().scale(dr, Coeff::Arbitrary(c2));
            acc = acc.add(dr, &ns);
            acc = acc.add(dr, &es);
            acc = acc.add(dr, &nes);
            proof {
                if good {
                    assert(bits@[2 * i as int].val() == endo_bit(self.val(), 2 * i as int));
                    assert(bits@[2 * i + 1].val() == endo_bit(self.val(), 2 * i + 1));
                    lemma_lift_step(a, c, n.val(), e.val());
                }
            }
            i = i + 1;
        }
        let tmp = Element::constant(dr, constant_term);
        acc = acc.add(dr, &tmp);
        Ok(acc)
    }
}


/// The point Algorithm 1 of [BGH19] starts from: `[2] (endo(P) + P)` for
/// `P = (x, y)`.
pub open spec fn scale_start(x: nat, y: nat) -> (nat, nat) {
    let s = point_add(fmul(x, zeta()), y, x, y);
    point_double(s.0, s.1)
}

/// The addend for the pair of bits `(n, e)`: `P`, negated when `n` is set,
/// with the endomorphism applied when `e` is set.
pub open spec fn scale_addend(x: nat, y: nat, n: bool, e: bool) -> (nat, nat) {
    (if e { fmul(x, zeta()) } else { x }, if n { fneg(y) } else { y })
}

/// The accumulator of Algorithm 1 of [BGH19] on `v` and `P = (x, y)` after
/// its first `k` pairs of bits.
pub open spec fn scale_acc(v: u128, x: nat, y: nat, k: nat) -> (nat, nat)
    decreases k,
{
    if k == 0 {
        scale_start(x, y)
    } else {
        let a = scale_acc(v, x, y, (k - 1) as nat);
        let q = scale_addend(x, y, endo_bit(v, 2 * (k - 1)), endo_bit(v, 2 * (k - 1) + 1));
        point_double_add(a.0, a.1, q.0, q.1)
    }
}

/// Whether none of the incomplete additions of the first `k` steps of
/// Algorithm 1 of [BGH19] meets an exceptional case.
pub open spec fn scale_ok(v: u128, x: nat, y: nat, k: nat) -> bool
    decreases k,
{
    if k == 0 {
        let s = point_add(fmul(x, zeta()), y, x, y);
        fmul(x, zeta()) != x && fadd(s.1, s.1) != 0
    } else {
        let a = scale_acc(v, x, y, (k - 1) as nat);
        let q = scale_addend(x, y, endo_bit(v, 2 * (k - 1)), endo_bit(v, 2 * (k - 1) + 1));
        scale_ok(v, x, y, (k - 1) as nat) && a.0 != q.0 && a.0 != double_add_xr(a.0, a.1, q.0, q.1)
    }
}

/// One step of Algorithm 1 of [BGH19]: `[2] acc + q`, where `q` is `p`
/// negated when `n` is set and with the endomorphism applied when `e` is
/// set. Seven gates.
fn scale_step(dr: &mut Simulator, acc: &Point, p: &Point, n: &Boolean, e: &Boolean) -> (r: Result<Point, Error>)
    requires
        old(dr).room(7, 14),
    ensures
        p.consistent() && n.consistent() && e.consistent() && acc.consistent() ==> {
            let q = scale_addend(p.xv(), p.yv(), n.val(), e.val());
            r is Ok <==> (acc.xv() != q.0 && acc.xv() != double_add_xr(acc.xv(), acc.yv(), q.0, q.1))
        },
        r matches Ok(o) ==> {
            &&& p.consistent() && n.consistent() && e.consistent() && acc.consistent() ==> {
                let q = scale_addend(p.xv(), p.yv(), n.val(), e.val());
                &&& (o.xv(), o.yv()) == point_double_add(acc.xv(), acc.yv(), q.0, q.1)
                &&& o.consistent()
            }
            &&& old(dr).grew(*final(dr), 7, 14)
        },
{
    let q = p.conditional_negate(dr, n)?;
    let q = q.conditional_endo(dr, e)?;
    acc.double_and_add_incomplete(dr, &q)
}

impl Endoscalar {
    /// Scales `p` by this endoscalar with Algorithm 1 of [BGH19]: seven
    /// gates per pair of bits, and seven to start.
    #[verifier::rlimit(60)]
    #[verifier::spinoff_prover]
    pub fn group_scale(&self, dr: &mut Simulator, p: &Point) -> (r: Result<Point, Error>)
        requires
            old(dr).room(7 * 65, 14 * 65),
        ensures
            self.consistent() && p.consistent() ==> (r is Ok <==> scale_ok(self.val(), p.xv(), p.yv(), 64)),
            r matches Ok(q) ==> {
                &&& self.consistent() && p.consistent() ==> {
                    &&& (q.xv(), q.yv()) == scale_acc(self.val(), p.xv(), p.yv(), 64)
                    &&& q.consistent()
                }
                &&& old(dr).grew(*final(dr), 7 * 65, 14 * 65)
            },
    {
        let ghost d0 = *dr;
        let ghost good = self.consistent() && p.consistent();
        let ghost v = self.val();
        let ghost x = p.xv();
        let ghost y = p.yv();
        let e = p.endo(dr);
        let s = match e.add_incomplete(dr, p) {
            Ok(s) => s,
            Err(err) => {
                proof {
                    if good {
                        if scale_ok(v, x, y, 64) {
                            lemma_scale_ok_prefix(v, x, y, 0, 64);
                        }
                    }
                }
                return Err(err);
            },
        };
        let mut acc = match s.double(dr) {
            Ok(a) => a,
            Err(err) => {
                proof {
                    if good {
                        if scale_ok(v, x, y, 64) {
                            lemma_scale_ok_prefix(v, x, y, 0, 64);
                        }
                    }
                }
                return Err(err);
            },
        };
        let bits = self.bits();
        proof {
            use_type_invariant(self);
        }
        let mut i: usize = 0;
        while i < 64
            invariant
                i <= 64,
                bits@ == self.bit_gadgets(),
                bits@.len() == 128,
                good == (self.consistent() && p.consistent()),
                v == self.val(),
                x == p.xv(),
                y == p.yv(),
                good ==> (acc.xv(), acc.yv()) == scale_acc(v, x, y, i as nat),
                good ==> acc.consistent(),
                good ==> scale_ok(v, x, y, i as nat),
                d0.room(7 * 65, 14 * 65),
                dr.gates() == d0.gates() + 7 * (i + 1),
                dr.constraints() == d0.constraints() + 14 * (i + 1),
            decreases 64 - i,
        {
            let a = acc;
            proof {
                if good {
                    assert(bits@[2 * i as int].consistent());
                    assert(bits@[2 * i + 1].consistent());
                    assert(bits@[2 * i as int].val() == endo_bit(v, 2 * i as int));
                    assert(bits@[2 * i + 1].val() == endo_bit(v, 2 * i + 1));
                }
            }
            acc = match scale_step(dr, &a, p, &bits[2 * i], &bits[2 * i + 1]) {
                Ok(n) => n,
                Err(err) => {
                    proof {
                        if good {
                            assert(!scale_ok(v, x, y, (i + 1) as nat));
                            if scale_ok(v, x, y, 64) {
                                lemma_scale_ok_prefix(v, x, y, (i + 1) as nat, 64);
                            }
                        }
                    }
                    return Err(err);
                },
            };
            i = i + 1;
        }
        Ok(acc)
    }
}

/// A prefix of the steps of Algorithm 1 is free of exceptional cases when
/// all of them are.
proof fn lemma_scale_ok_prefix(v: u128, x: nat, y: nat, j: nat, k: nat)
    requires
        j <= k,
        scale_ok(v, x, y, k),
    ensures
        scale_ok(v, x, y, j),
    decreases k - j,
{
    if j < k {
        lemma_scale_ok_prefix(v, x, y, j, (k - 1) as nat);
    }
}


/// Whether every bit position `i < 128` finds a square when extracting from
/// `v`: `v + i` or `5 * (v + i)`. In the Pallas base field, where `5` is not
/// a square, one of the two always is.
pub open spec fn extractable(v: nat) -> bool {
    forall|i: nat| i < 128 ==> #[trigger] row_extractable(v, i)
}

/// Whether bit position `i` finds a square when extracting from `v`: `v + i`
/// or `5 * (v + i)`.
pub open spec fn row_extractable(v: nat, i: nat) -> bool {
    is_square(fadd(v, i)) || is_square(fmul(fadd(v, i), 5))
}

/// Bit `i` of the endoscalar extracted from `v`: whether `v + i` is a
/// square.
pub open spec fn extracted_bit(v: nat, i: int) -> bool {
    is_square(fadd(v, i as nat))
}

/// Algorithm 2 of [BGH19] after `k` pairs of bits of the endoscalar
/// extracted from `e`.
pub open spec fn extracted_lift_acc(e: nat, k: nat) -> nat
    decreases k,
{
    if k == 0 {
        fadd(fadd(zeta(), 1), fadd(zeta(), 1))
    } else {
        let a = extracted_lift_acc(e, (k - 1) as nat);
        fadd(fadd(a, a), lift_term(extracted_bit(e, 2 * (k - 1)), extracted_bit(e, 2 * (k - 1) + 1)))
    }
}

/// The effective scalar of the endoscalar extracted from `e`.
pub open spec fn extracted_lift(e: nat) -> nat {
    extracted_lift_acc(e, 64)
}

/// The effective scalar of an endoscalar depends on its bits alone: that of
/// the endoscalar extracted from `e` is [`extracted_lift`].
pub proof fn lemma_lift_extracted(v: u128, e: nat)
    requires
        forall|i: int| 0 <= i < 128 ==> #[trigger] endo_bit(v, i) == extracted_bit(e, i),
    ensures
        lift_value(v) == extracted_lift(e),
{
    lemma_lift_extracted_acc(v, e, 64);
}

proof fn lemma_lift_extracted_acc(v: u128, e: nat, k: nat)
    requires
        k <= 64,
        forall|i: int| 0 <= i < 128 ==> #[trigger] endo_bit(v, i) == extracted_bit(e, i),
    ensures
        lift_acc(v, k) == extracted_lift_acc(e, k),
    decreases k,
{
    if k > 0 {
        lemma_lift_extracted_acc(v, e, (k - 1) as nat);
        assert(endo_bit(v, 2 * (k - 1)) == extracted_bit(e, 2 * (k - 1)));
        assert(endo_bit(v, 2 * (k - 1) + 1) == extracted_bit(e, 2 * (k - 1) + 1));
    }
}

/// Whether `after` follows from `before` by `n` donations of a spare wire.
pub open spec fn donated<A: Allocator>(before: A, n: nat, after: A) -> bool
    decreases n,
{
    if n == 0 {
        before == after
    } else {
        exists|mid: A| donated(before, (n - 1) as nat, mid) && mid.donate_post(true, after)
    }
}

/// The linear constraint of bit `i` of an extraction holds: `sq` is
/// `e + i` when the bit is set and `5 (e + i)` otherwise.
proof fn lemma_extract_row(e: nat, i: nat, b: bool, sq: nat)
    requires
        e < p(),
        i < 128,
        sq == if b { fadd(e, i) } else { fmul(fadd(e, i), 5) },
    ensures
        ({
            let m = p();
            let c1 = (((m - 4) * i) as nat) % m;
            let t0 = fmul(fmul(1, 5 * i), 1);
            let t1 = fmul(fmul(1, c1), bit(b));
            let t2 = fmul(fmul(1, 5), e);
            let t3 = fmul(fmul(1, (m - 4) as nat), fmul(e, bit(b)));
            fsub(fadd(fadd(fadd(fadd(0, t0), t1), t2), t3), fmul(1, sq)) == 0
        }),
{
    let m = p();
    let mi = m as int;
    let c1 = (((m - 4) * i) as nat) % m;
    let pm4 = (m - 4) as nat;
    crate::field::lemma_fmul_one(5 * i);
    crate::field::lemma_fmul_one(c1);
    crate::field::lemma_fmul_one(5);
    crate::field::lemma_fmul_one(pm4);
    crate::field::lemma_fmul_one(e);
    crate::field::lemma_fmul_zero(e);
    crate::field::lemma_fmul_zero(c1);
    crate::field::lemma_fmul_zero(pm4);
    crate::field::lemma_fmul_one(sq);
    crate::field::lemma_fadd_zero(5 * i);
    crate::field::lemma_fmul_comm(5, e);
    crate::field::lemma_fmul_comm(pm4, e);
    let t1 = fmul(c1, bit(b));
    let t2 = fmul(5, e);
    let t3 = fmul(pm4, fmul(e, bit(b)));
    let s1 = fadd(5 * i, t1);
    let s2 = fadd(s1, t2);
    let s3 = fadd(s2, t3);
    assert(sq < m);
    assert(s3 < m);
    if b {
        crate::field::lemma_fadd_mod(5 * i, pm4 * i);
        crate::field::lemma_fadd_mod((5 * i + pm4 * i) as nat, 5 * e);
        crate::field::lemma_fadd_mod((5 * i + pm4 * i) as nat, e * 5);
        crate::field::lemma_fadd_mod(s1, e * 5);
        crate::field::lemma_fadd_mod((5 * i + pm4 * i + 5 * e) as nat, e * pm4);
        crate::field::lemma_fadd_mod(s2, e * pm4);
        let tot = (5 * i + pm4 * i + 5 * e + pm4 * e) as int;
        assert(tot == mi * ((i + e) as int) + (i + e)) by (nonlinear_arith)
            requires
                tot == 5 * i + pm4 * i + 5 * e + pm4 * e,
                pm4 == mi - 4,
        ;
        vstd::arithmetic::div_mod::lemma_mod_multiples_vanish((i + e) as int, (i + e) as int, mi);
        assert(s3 == sq);
    } else {
        crate::field::lemma_fadd_mod(5 * i, 0);
        crate::field::lemma_fadd_mod(5 * i, e * 5);
        crate::field::lemma_fadd_mod(s2, 0);
        crate::field::lemma_fmul_mod(e + i, 5);
        assert(5 * i + e * 5 == (e + i) * 5) by (nonlinear_arith);
        assert(s3 == sq);
    }
    crate::field::lemma_fsub_zero_iff(s3, sq);
}

/// Witnesses bit `i` of an extraction from `elem`, given the running
/// constants of the extraction (`constant = i`, `coeff_0 = 5 i`,
/// `coeff_1 = -4 i`, `coeff_2 = 5`, `coeff_3 = -4`): allocates the bit and the
/// square of its root, and constrains the square to be `elem + i` when the
/// bit is set and `5 (elem + i)` otherwise. Three gates and six
/// constraints.
fn extract_row<A: Allocator>(
    dr: &mut Simulator,
    allocator: &mut A,
    elem: &Element,
    i: u128,
    constant: &Fp,
    coeff_0: &Fp,
    coeff_1: &Fp,
    coeff_2: &Fp,
    coeff_3: &Fp,
) -> (r: Result<Boolean, Error>)
    requires
        i < 128,
        constant@ == i,
        coeff_0@ == 5 * i,
        coeff_1@ == (((p() - 4) * i) as nat) % p(),
        coeff_2@ == 5,
        coeff_3@ == p() - 4,
        old(dr).room(3, 6),
    ensures
        r is Ok <==> elem.consistent(),
        r matches Ok(b) ==> {
            &&& row_extractable(elem.val(), i as nat)
            &&& b.consistent()
            &&& b.val() == extracted_bit(elem.val(), i as int)
            &&& old(dr).grew(*final(dr), 3, 6)
            &&& old(allocator).donate_post(true, *final(allocator))
        },
{
    let ghost ev = elem.val();
    let v = elem.value().add(constant);
    proof {
        assert(v@ == fadd(ev, i as nat));
    }
    let (is_square, root) = v.sqrt_alt();
    let (sqrt, bit) = if is_square {
        (root, true)
    } else {
        // `v` is not a square, so `ROOT_OF_UNITY * v` is, and with it `5 v`.
        proof {
            lemma_generator_multiple_square(v@, root@);
        }
        let w = v.mul(coeff_2);
        (w.sqrt().unwrap(), false)
    };
    let b = match Boolean::allocate(dr, allocator, bit) {
        Ok(b) => b,
        Err(err) => {
            proof {
                assert(false);
            }
            return Err(err);
        },
    };
    let (_, square) = match Element::alloc_square(dr, sqrt) {
        Ok(pair) => pair,
        Err(err) => {
            proof {
                assert(false);
            }
            return Err(err);
        },
    };
    let vb = elem.mul(dr, &b.element())?;
    let lc = DirectSum::new().add_term(&Simulator::one(), Coeff::Arbitrary(*coeff_0)).add_term(
        &b.wire(),
        Coeff::Arbitrary(*coeff_1),
    ).add_term(&elem.wire(), Coeff::Arbitrary(*coeff_2)).add_term(&vb.wire(), Coeff::Arbitrary(*coeff_3)).sub(
        &square.wire(),
    );
    proof {
        lemma_extract_row(ev, i as nat, bit, square.val());
    }
    match dr.enforce_zero(lc) {
        Ok(()) => Ok(b),
        Err(err) => {
            proof {
                assert(false);
            }
            Err(err)
        },
    }
}

impl Endoscalar {
    /// Extracts an endoscalar from a random element: bit `i` is set when
    /// `elem + i` is a square, and the square root is witnessed either way.
    /// Three gates and six constraints per bit; each bit's spare wire is
    /// donated to `allocator`.
    pub fn extract<A: Allocator>(dr: &mut Simulator, allocator: &mut A, elem: Element) -> (r: Result<
        Endoscalar,
        Error,
    >)
        requires
            old(dr).room(384, 768),
        ensures
            r is Ok <==> elem.consistent(),
            r matches Ok(s) ==> {
                &&& extractable(elem.val())
                &&& forall|i: int| 0 <= i < 128 ==> #[trigger] endo_bit(s.val(), i) == extracted_bit(elem.val(), i)
                &&& s.consistent()
                &&& old(dr).grew(*final(dr), 384, 768)
                &&& donated(*old(allocator), 128, *final(allocator))
            },
    {
        let ghost d0 = *dr;
        let ghost a0 = *allocator;
        let ghost ev = elem.val();
        let one = Fp::from_u64(1);
        let mut bits: Vec<Boolean> = Vec::new();
        let mut value: u128 = 0;
        let mut constant = Fp::from_u64(0);
        let mut coeff_0 = Fp::from_u64(0);
        let mut coeff_1 = Fp::from_u64(0);
        let coeff_2 = Fp::multiplicative_generator();
        let coeff_3 = one.sub(&coeff_2);
        proof {
            assert(coeff_3@ == p() - 4);
            assert forall|j: int| 0 <= j < 128 implies !#[trigger] endo_bit(0u128, j) by {
                let ju = j as u128;
                assert((0u128 >> ju) & 1u128 == 0u128) by (bit_vector);
            }
            vstd::arithmetic::div_mod::lemma_small_mod(0, p());
        }
        let mut i: u128 = 0;
        while i < 128
            invariant
                i <= 128,
                ev == elem.val(),
                forall|j: nat| j < i ==> #[trigger] row_extractable(ev, j),
                one@ == 1,
                constant@ == i,
                coeff_0@ == 5 * i,
                coeff_1@ == (((p() - 4) * i) as nat) % p(),
                coeff_2@ == 5,
                coeff_3@ == p() - 4,
                i > 0 ==> elem.consistent(),
                bits@.len() == i,
                forall|j: int|
                    0 <= j < i ==> {
                        &&& #[trigger] bits@[j].consistent()
                        &&& bits@[j].val() == endo_bit(value, j)
                        &&& endo_bit(value, j) == extracted_bit(ev, j)
                    },
                forall|j: int| i <= j < 128 ==> !#[trigger] endo_bit(value, j),
                d0.room(384, 768),
                dr.gates() == d0.gates() + 3 * i,
                dr.constraints() == d0.constraints() + 6 * i,
                donated(a0, i as nat, *allocator),
            decreases 128 - i,
        {
            let ghost al = *allocator;
            let b = extract_row(dr, allocator, &elem, i, &constant, &coeff_0, &coeff_1, &coeff_2, &coeff_3)?;
            proof {
                assert(donated(a0, (i + 1) as nat, *allocator));
            }
            let bit = b.value();
            let ghost old_value = value;
            if bit {
                value = value | (1u128 << i);
            }
            proof {
                let iu = i;
                assert forall|j: int| 0 <= j < 128 && j != i implies #[trigger] endo_bit(value, j) == endo_bit(
                    old_value,
                    j,
                ) by {
                    let ju = j as u128;
                    if bit {
                        assert(((old_value | (1u128 << iu)) >> ju) & 1u128 == (old_value >> ju) & 1u128) by (bit_vector)
                            requires
                                iu < 128,
                                ju < 128,
                                ju != iu,
                        ;
                    }
                }
                if bit {
                    assert(((old_value | (1u128 << iu)) >> iu) & 1u128 == 1u128) by (bit_vector)
                        requires
                            iu < 128,
                    ;
                }
                assert(endo_bit(value, i as int) == bit);
            }
            let ghost before = bits@;
            bits.push(b);
            proof {
                assert(bits@ == before.push(b));
                assert(bits@[i as int] == b);
                let m = p();
                crate::field::lemma_fadd_mod(((m - 4) * i) as nat, (m - 4) as nat);
                assert(((m - 4) * i) + (m - 4) == (m - 4) * (i + 1)) by (nonlinear_arith);
                vstd::arithmetic::div_mod::lemma_small_mod((i + 1) as nat, m);
                vstd::arithmetic::div_mod::lemma_small_mod((5 * i + 5) as nat, m);
            }
            constant = constant.add(&one);
            coeff_0 = coeff_0.add(&coeff_2);
            coeff_1 = coeff_1.add(&coeff_3);
            i = i + 1;
        }
        proof {
            assert forall|j: int| 0 <= j < 128 implies #[trigger] endo_bit(value, j) == extracted_bit(ev, j) by {
                assert(bits@[j].consistent());
            }
            assert(extractable(ev));
        }
        Ok(Endoscalar { bits, value })
    }
}

/// The endoscalar extracted from a random field element, computed natively:
/// bit `i` is set when `value + i` is a square.
pub fn extract_endoscalar(value: Fp) -> (r: u128)
    ensures
        extractable(value@),
        forall|i: int| 0 <= i < 128 ==> #[trigger] endo_bit(r, i) == extracted_bit(value@, i),
{
    let mut dr = Simulator::new();
    let mut unit = ();
    let elem = Element::allocate(&mut dr, &mut unit, value).unwrap();
    Endoscalar::extract(&mut dr, &mut unit, elem).unwrap().value()
}

} // verus!
