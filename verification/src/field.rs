//! Elements of the Pallas base field
//! `p = 0x40000000000000000000000000000000224698fc094cf91b992d30ed00000001`.
//!
//! A field element is stored as its canonical 32-byte little-endian encoding
//! and viewed as the natural number it encodes. All arithmetic is delegated to
//! `pasta_curves`.

use ff::PrimeField;
use vstd::prelude::*;

verus! {

/// The modulus of the Pallas base field.
pub open spec fn p() -> nat {
    0x40000000000000000000000000000000224698fc094cf91b992d30ed00000001nat
}

/// The natural number encoded by 32 little-endian bytes.
pub open spec fn bytes_val(b: [u8; 32]) -> nat {
    b[0] as nat + 0x100 * (b[1] as nat + 0x100 * (b[2] as nat + 0x100 * (b[3] as nat
        + 0x100 * (b[4] as nat + 0x100 * (b[5] as nat + 0x100 * (b[6] as nat + 0x100 * (b[7] as nat
        + 0x100 * (b[8] as nat + 0x100 * (b[9] as nat + 0x100 * (b[10] as nat + 0x100 * (b[11] as nat
        + 0x100 * (b[12] as nat + 0x100 * (b[13] as nat + 0x100 * (b[14] as nat + 0x100 * (b[15] as nat
        + 0x100 * (b[16] as nat + 0x100 * (b[17] as nat + 0x100 * (b[18] as nat + 0x100 * (b[19] as nat
        + 0x100 * (b[20] as nat + 0x100 * (b[21] as nat + 0x100 * (b[22] as nat + 0x100 * (b[23] as nat
        + 0x100 * (b[24] as nat + 0x100 * (b[25] as nat + 0x100 * (b[26] as nat + 0x100 * (b[27] as nat
        + 0x100 * (b[28] as nat + 0x100 * (b[29] as nat + 0x100 * (b[30] as nat
        + 0x100 * (b[31] as nat)))))))))))))))))))))))))))))))
}

/// Field addition on canonical representatives.
pub open spec fn fadd(a: nat, b: nat) -> nat {
    (a + b) % p()
}

/// Field multiplication on canonical representatives.
pub open spec fn fmul(a: nat, b: nat) -> nat {
    (a * b) % p()
}

/// Field negation on canonical representatives.
pub open spec fn fneg(a: nat) -> nat {
    ((p() - a % p()) as nat) % p()
}

/// Field subtraction on canonical representatives.
pub open spec fn fsub(a: nat, b: nat) -> nat {
    fadd(a, fneg(b))
}

/// An element of the Pallas base field.
#[derive(Clone, Copy, Debug, PartialEq, Eq)]
pub struct Fp {
    pub(crate) bytes: [u8; 32],
}

impl Fp {
    #[verifier::type_invariant]
    spec fn canonical(self) -> bool {
        bytes_val(self.bytes) < p()
    }
}

impl View for Fp {
    type V = nat;

    closed spec fn view(&self) -> nat {
        bytes_val(self.bytes) % p()
    }
}

/// Every element is viewed as a canonical representative.
pub broadcast proof fn lemma_fp_bounded(x: Fp)
    ensures
        #[trigger] x@ < p(),
{
}

/// The value of `Fp::ZETA` in `pasta_curves`: a primitive cube root of unity.
pub open spec fn zeta() -> nat {
    0x12ccca834acdba712caad5dc57aab1b01d1f8bd237ad31491dad5ebdfdfe4ab9nat
}

/// The quotient `a / b`: a value `q < p` with `q * b = a`, the only one
/// once `b` is nonzero.
pub open spec fn fdiv(a: nat, b: nat) -> nat {
    choose|q: nat| is_quotient(q, a, b)
}

/// Whether `q` is a canonical value with `q * b = a`.
pub open spec fn is_quotient(q: nat, a: nat, b: nat) -> bool {
    q < p() && fmul(q, b) == a
}

/// The value of `PrimeField::ROOT_OF_UNITY` of `pasta_curves::Fp`:
/// `5^t`, where `p - 1 = 2^32 t` with `t` odd, a generator of the subgroup of
/// order `2^32`.
pub open spec fn root_of_unity() -> nat {
    0x2bce74deac30ebda362120830561f81aea322bf2b7bb7584bdad6fabd87ea32fnat
}

/// Whether `a` is a square modulo `p`.
pub open spec fn is_square(a: nat) -> bool {
    exists|y: nat| y < p() && #[trigger] fmul(y, y) == a % p()
}

impl Fp {
    /// `pasta_curves::Fp::from(u64)`: the element `value`.
    #[verifier::external_body]
    pub fn from_u64(value: u64) -> (r: Fp)
        ensures
            r@ == value as nat,
    {
        Fp { bytes: pasta_curves::Fp::from(value).to_repr() }
    }

    /// `PrimeField::from_u128` of `pasta_curves::Fp`: the element `value`
    /// (every `u128` is below `p`).
    #[verifier::external_body]
    pub fn from_u128(value: u128) -> (r: Fp)
        ensures
            r@ == value as nat,
    {
        Fp { bytes: pasta_curves::Fp::from_u128(value).to_repr() }
    }

    /// `WithSmallOrderMulGroup::ZETA` of `pasta_curves::Fp`, whose source
    /// gives it as the constant [`zeta`].
    #[verifier::external_body]
    pub fn zeta() -> (r: Fp)
        ensures
            r@ == zeta(),
    {
        Fp { bytes: <pasta_curves::Fp as ff::WithSmallOrderMulGroup<3>>::ZETA.to_repr() }
    }

    /// `PrimeField::MULTIPLICATIVE_GENERATOR` of `pasta_curves::Fp`, which the
    /// source defines as `5`.
    #[verifier::external_body]
    pub fn multiplicative_generator() -> (r: Fp)
        ensures
            r@ == 5,
    {
        Fp { bytes: pasta_curves::Fp::MULTIPLICATIVE_GENERATOR.to_repr() }
    }

    /// `PrimeField::from_repr` of `pasta_curves::Fp`: the element that 32
    /// little-endian bytes encode, absent unless they encode a value below
    /// `p`.
    #[verifier::external_body]
    pub fn from_repr(bytes: [u8; 32]) -> (r: Option<Fp>)
        ensures
            r is Some <==> bytes_val(bytes) < p(),
            r matches Some(f) ==> f@ == bytes_val(bytes),
    {
        match Option::<pasta_curves::Fp>::from(pasta_curves::Fp::from_repr(bytes)) {
            Some(f) => Some(Fp { bytes: f.to_repr() }),
            None => None,
        }
    }

    /// The canonical 32-byte little-endian encoding.
    pub fn to_repr(&self) -> (r: [u8; 32])
        ensures
            bytes_val(r) == self@,
    {
        proof {
            use_type_invariant(self);
            vstd::arithmetic::div_mod::lemma_small_mod(bytes_val(self.bytes), p());
        }
        self.bytes
    }

    /// `PartialEq` of `pasta_curves::Fp`: equality of the represented values.
    #[verifier::external_body]
    pub fn equals(&self, other: &Fp) -> (r: bool)
        ensures
            r == (self@ == other@),
    {
        let a = pasta_curves::Fp::from_repr(self.bytes).unwrap();
        let b = pasta_curves::Fp::from_repr(other.bytes).unwrap();
        a == b
    }

    /// `pasta_curves::Fp::add`: the sum modulo `p`.
    #[verifier::external_body]
    pub fn add(&self, other: &Fp) -> (r: Fp)
        ensures
            r@ == fadd(self@, other@),
    {
        let a = pasta_curves::Fp::from_repr(self.bytes).unwrap();
        let b = pasta_curves::Fp::from_repr(other.bytes).unwrap();
        Fp { bytes: (a + b).to_repr() }
    }

    /// `pasta_curves::Fp::sub`: the difference modulo `p`.
    #[verifier::external_body]
    pub fn sub(&self, other: &Fp) -> (r: Fp)
        ensures
            r@ == fsub(self@, other@),
    {
        let a = pasta_curves::Fp::from_repr(self.bytes).unwrap();
        let b = pasta_curves::Fp::from_repr(other.bytes).unwrap();
        Fp { bytes: (a - b).to_repr() }
    }

    /// `pasta_curves::Fp::neg`: the additive inverse modulo `p`.
    #[verifier::external_body]
    pub fn neg(&self) -> (r: Fp)
        ensures
            r@ == fneg(self@),
    {
        let a = pasta_curves::Fp::from_repr(self.bytes).unwrap();
        Fp { bytes: (-a).to_repr() }
    }

    /// `pasta_curves::Fp::mul`: the product modulo `p`.
    #[verifier::external_body]
    pub fn mul(&self, other: &Fp) -> (r: Fp)
        ensures
            r@ == fmul(self@, other@),
    {
        let a = pasta_curves::Fp::from_repr(self.bytes).unwrap();
        let b = pasta_curves::Fp::from_repr(other.bytes).unwrap();
        Fp { bytes: (a * b).to_repr() }
    }

    /// `Field::invert` of `pasta_curves::Fp`: the multiplicative inverse,
    /// absent exactly for zero.
    #[verifier::external_body]
    pub fn invert(&self) -> (r: Option<Fp>)
        ensures
            r is None <==> self@ == 0,
            r matches Some(inv) ==> fmul(self@, inv@) == 1,
    {
        let a = pasta_curves::Fp::from_repr(self.bytes).unwrap();
        match Option::<pasta_curves::Fp>::from(ff::Field::invert(&a)) {
            Some(inv) => Some(Fp { bytes: inv.to_repr() }),
            None => None,
        }
    }

    /// `Field::sqrt` of `pasta_curves::Fp`: a square root, present exactly
    /// when the element is a square.
    #[verifier::external_body]
    pub fn sqrt(&self) -> (r: Option<Fp>)
        ensures
            r is Some <==> is_square(self@),
            r matches Some(root) ==> fmul(root@, root@) == self@,
    {
        let a = pasta_curves::Fp::from_repr(self.bytes).unwrap();
        match Option::<pasta_curves::Fp>::from(ff::Field::sqrt(&a)) {
            Some(root) => Some(Fp { bytes: root.to_repr() }),
            None => None,
        }
    }

    /// `Field::sqrt_alt` of `pasta_curves::Fp`, which the crate's square-root
    /// tables document as `sqrt_ratio(self, 1)`: the flag tells whether the
    /// element is a square; with the flag set the second component is a square
    /// root of the element, and without it a square root of
    /// `ROOT_OF_UNITY * self` (the source asserts that one of the two holds
    /// for every nonzero element, `ROOT_OF_UNITY` being a non-square). Which
    /// of the two roots of that square comes back is not stated.
    #[verifier::external_body]
    pub fn sqrt_alt(&self) -> (r: (bool, Fp))
        ensures
            r.0 <==> is_square(self@),
            r.0 ==> fmul(r.1@, r.1@) == self@,
            !r.0 ==> fmul(r.1@, r.1@) == fmul(root_of_unity(), self@),
    {
        let a = pasta_curves::Fp::from_repr(self.bytes).unwrap();
        let (is_square, root) = ff::Field::sqrt_alt(&a);
        (bool::from(is_square), Fp { bytes: root.to_repr() })
    }
}

} // verus!

verus! {

// Laws of the field operations on canonical representatives.

pub proof fn lemma_fadd_comm(a: nat, b: nat)
    ensures
        fadd(a, b) == fadd(b, a),
{
}

pub proof fn lemma_fmul_comm(a: nat, b: nat)
    ensures
        fmul(a, b) == fmul(b, a),
{
    vstd::arithmetic::mul::lemma_mul_is_commutative(a as int, b as int);
}

pub proof fn lemma_fadd_assoc(a: nat, b: nat, c: nat)
    ensures
        fadd(fadd(a, b), c) == fadd(a, fadd(b, c)),
{
    let m = p() as int;
    vstd::arithmetic::div_mod::lemma_add_mod_noop((a + b) as int, c as int, m);
    vstd::arithmetic::div_mod::lemma_add_mod_noop(a as int, (b + c) as int, m);
    vstd::arithmetic::div_mod::lemma_mod_twice((a + b) as int, m);
    vstd::arithmetic::div_mod::lemma_mod_twice((b + c) as int, m);
    vstd::arithmetic::div_mod::lemma_mod_twice(a as int, m);
    vstd::arithmetic::div_mod::lemma_mod_twice(c as int, m);
    vstd::arithmetic::div_mod::lemma_add_mod_noop(a as int, b as int, m);
    vstd::arithmetic::div_mod::lemma_add_mod_noop(b as int, c as int, m);
    vstd::arithmetic::div_mod::lemma_add_mod_noop((a + b) as int % m, c as int, m);
    vstd::arithmetic::div_mod::lemma_add_mod_noop(a as int, (b + c) as int % m, m);
}

pub proof fn lemma_fmul_assoc(a: nat, b: nat, c: nat)
    ensures
        fmul(fmul(a, b), c) == fmul(a, fmul(b, c)),
{
    let m = p() as int;
    vstd::arithmetic::div_mod::lemma_mul_mod_noop_left((a * b) as int, c as int, m);
    vstd::arithmetic::div_mod::lemma_mul_mod_noop_right(a as int, (b * c) as int, m);
    vstd::arithmetic::mul::lemma_mul_is_associative(a as int, b as int, c as int);
}

pub proof fn lemma_fmul_distrib(a: nat, b: nat, c: nat)
    ensures
        fmul(a, fadd(b, c)) == fadd(fmul(a, b), fmul(a, c)),
{
    let m = p() as int;
    vstd::arithmetic::div_mod::lemma_mul_mod_noop_right(a as int, (b + c) as int, m);
    vstd::arithmetic::mul::lemma_mul_is_distributive_add(a as int, b as int, c as int);
    vstd::arithmetic::div_mod::lemma_add_mod_noop((a * b) as int, (a * c) as int, m);
}

/// A quotient is the only one once the divisor has an inverse.
pub proof fn lemma_fdiv_unique(a: nat, b: nat, q: nat, inv: nat)
    requires
        q < p(),
        fmul(q, b) == a,
        fmul(b, inv) == 1,
    ensures
        fdiv(a, b) == q,
{
    assert(is_quotient(q, a, b));
    let q2 = fdiv(a, b);
    assert(is_quotient(q2, a, b));
    lemma_fmul_one(q2);
    lemma_fmul_one(q);
    lemma_fmul_assoc(q2, b, inv);
    lemma_fmul_assoc(q, b, inv);
}

pub proof fn lemma_fadd_zero(a: nat)
    requires
        a < p(),
    ensures
        fadd(a, 0) == a,
        fadd(0, a) == a,
{
    vstd::arithmetic::div_mod::lemma_small_mod(a, p());
}

pub proof fn lemma_fmul_one(a: nat)
    requires
        a < p(),
    ensures
        fmul(a, 1) == a,
        fmul(1, a) == a,
{
    vstd::arithmetic::div_mod::lemma_small_mod(a, p());
}

pub proof fn lemma_fmul_zero(a: nat)
    ensures
        fmul(a, 0) == 0,
        fmul(0, a) == 0,
{
}

/// Reducing an operand first does not change a sum.
pub proof fn lemma_fadd_mod(a: nat, b: nat)
    ensures
        fadd(a % p(), b) == fadd(a, b),
        fadd(a, b % p()) == fadd(a, b),
{
    let m = p() as int;
    vstd::arithmetic::div_mod::lemma_add_mod_noop(a as int, b as int, m);
    vstd::arithmetic::div_mod::lemma_add_mod_noop((a % p()) as int, b as int, m);
    vstd::arithmetic::div_mod::lemma_add_mod_noop(a as int, (b % p()) as int, m);
    vstd::arithmetic::div_mod::lemma_mod_twice(a as int, m);
    vstd::arithmetic::div_mod::lemma_mod_twice(b as int, m);
}

/// Reducing an operand first does not change a product.
pub proof fn lemma_fmul_mod(a: nat, b: nat)
    ensures
        fmul(a % p(), b) == fmul(a, b),
        fmul(a, b % p()) == fmul(a, b),
{
    let m = p() as int;
    vstd::arithmetic::div_mod::lemma_mul_mod_noop_left(a as int, b as int, m);
    vstd::arithmetic::div_mod::lemma_mul_mod_noop_right(a as int, b as int, m);
}

/// Subtracting and adding back the same value is the identity.
pub proof fn lemma_fsub_add(a: nat, b: nat)
    requires
        a < p(),
        b < p(),
    ensures
        fadd(fsub(a, b), b) == a,
        fsub(a, a) == 0,
        fsub(a, 0) == a,
{
    let m = p() as int;
    vstd::arithmetic::div_mod::lemma_small_mod(b, p());
    vstd::arithmetic::div_mod::lemma_small_mod(a, p());
    vstd::arithmetic::div_mod::lemma_small_mod(0, p());
    let nb = fneg(b);
    lemma_fadd_assoc(a, nb, b);
    if b == 0 {
        vstd::arithmetic::div_mod::lemma_mod_self_0(m);
    } else {
        vstd::arithmetic::div_mod::lemma_small_mod((p() - b) as nat, p());
        vstd::arithmetic::div_mod::lemma_mod_self_0(m);
    }
    vstd::arithmetic::div_mod::lemma_mod_self_0(m);
    if a == 0 {
    } else {
        vstd::arithmetic::div_mod::lemma_small_mod((p() - a) as nat, p());
    }
    vstd::arithmetic::div_mod::lemma_mod_add_multiples_vanish(0, m);
}

} // verus!

verus! {

/// A difference is zero exactly when the operands are equal.
pub proof fn lemma_fsub_zero_iff(a: nat, b: nat)
    requires
        a < p(),
        b < p(),
    ensures
        (fsub(a, b) == 0) <==> (a == b),
{
    lemma_fsub_add(a, b);
    if fsub(a, b) == 0 {
        lemma_fadd_zero(b);
    }
}

} // verus!

verus! {

/// Subtraction of canonical representatives as an integer residue.
pub proof fn lemma_fsub_int(a: nat, b: nat)
    requires
        a < p(),
        b < p(),
    ensures
        fsub(a, b) as int == (a as int - b as int) % (p() as int),
        fneg(b) as int == (-(b as int)) % (p() as int),
{
    let m = p() as int;
    vstd::arithmetic::div_mod::lemma_small_mod(b, p());
    if b == 0 {
        vstd::arithmetic::div_mod::lemma_mod_self_0(m);
        vstd::arithmetic::div_mod::lemma_small_mod(a, p());
    } else {
        vstd::arithmetic::div_mod::lemma_small_mod((p() - b) as nat, p());
        vstd::arithmetic::div_mod::lemma_mod_add_multiples_vanish(-(b as int), m);
        vstd::arithmetic::div_mod::lemma_mod_add_multiples_vanish(a - b, m);
        vstd::arithmetic::div_mod::lemma_add_mod_noop(a as int, (m - b) as int, m);
        vstd::arithmetic::div_mod::lemma_small_mod(a, p());
    }
}

/// A square root of `5 / ROOT_OF_UNITY`, namely `5^((p - t) / 2)`: as
/// `ROOT_OF_UNITY = 5^t` with `t` odd, the quotient is an even power of `5`.
pub open spec fn generator_root_ratio_sqrt() -> nat {
    0x3dc50dfb25337fca36c67dbb6fc8b11d0addeec2165ad856d38a0c5f1cff4a38nat
}

/// `5 = c^2 ROOT_OF_UNITY` for `c = generator_root_ratio_sqrt()`.
pub proof fn lemma_generator_root_ratio()
    ensures
        fmul(fmul(generator_root_ratio_sqrt(), generator_root_ratio_sqrt()), root_of_unity()) == 5,
{
    let c = generator_root_ratio_sqrt() as int;
    let m = p() as int;
    let cc = 0x2029c8dd9f5718cf88a3c7f637f24617304f5e46803434dce812dbad7e08d9cbint;
    assert(c * c == 0x3b9e0160d4151148fac7cb3417c2eec6c08a6cd176a1cc8c4b46ca62b30b9275int * m + cc);
    vstd::arithmetic::div_mod::lemma_fundamental_div_mod_converse(
        c * c,
        m,
        0x3b9e0160d4151148fac7cb3417c2eec6c08a6cd176a1cc8c4b46ca62b30b9275int,
        cc,
    );
    let r = root_of_unity() as int;
    assert(cc * r == 0x1603d42f13f2b843386b846818ae0a1b9c37d04e2febc68990a6179140363d40int * m + 5);
    vstd::arithmetic::div_mod::lemma_fundamental_div_mod_converse(
        cc * r,
        m,
        0x1603d42f13f2b843386b846818ae0a1b9c37d04e2febc68990a6179140363d40int,
        5,
    );
}

/// Where `ROOT_OF_UNITY * v` is a square, so is `5 v`: with
/// `y^2 = ROOT_OF_UNITY * v`, `(c y)^2 = c^2 ROOT_OF_UNITY v = 5 v`.
pub proof fn lemma_generator_multiple_square(v: nat, y: nat)
    requires
        fmul(y, y) == fmul(root_of_unity(), v),
    ensures
        is_square(fmul(v, 5)),
{
    let c = generator_root_ratio_sqrt();
    let z = fmul(c, y);
    lemma_generator_root_ratio();
    lemma_fmul_assoc(c, y, z);
    lemma_fmul_comm(y, z);
    lemma_fmul_assoc(c, y, y);
    lemma_fmul_assoc(z, c, y);
    lemma_fmul_comm(z, c);
    // z * z = c * (y * (c * y)) = c * ((c * y) * y) = c * (c * (y * y))
    assert(fmul(z, z) == fmul(c, fmul(z, y)));
    lemma_fmul_assoc(c, c, fmul(y, y));
    assert(fmul(z, y) == fmul(c, fmul(y, y)));
    assert(fmul(z, z) == fmul(fmul(c, c), fmul(y, y)));
    lemma_fmul_assoc(fmul(c, c), root_of_unity(), v);
    assert(fmul(z, z) == fmul(5, v));
    lemma_fmul_comm(5, v);
    vstd::arithmetic::div_mod::lemma_mod_twice((v * 5) as int, p() as int);
    assert(z < p());
    assert(fmul(z, z) == fmul(v, 5) % p());
}

/// Two integers are congruent exactly when their difference vanishes.
pub proof fn lemma_mod_eq_iff(x: int, y: int)
    ensures
        ((x - y) % (p() as int) == 0) <==> (x % (p() as int) == y % (p() as int)),
{
    let m = p() as int;
    vstd::arithmetic::div_mod::lemma_sub_mod_noop(x, y, m);
    vstd::arithmetic::div_mod::lemma_mod_bound(x, m);
    vstd::arithmetic::div_mod::lemma_mod_bound(y, m);
    let d = x % m - y % m;
    if d != 0 {
        if d > 0 {
            vstd::arithmetic::div_mod::lemma_small_mod(d as nat, p());
        } else {
            vstd::arithmetic::div_mod::lemma_mod_add_multiples_vanish(d, m);
            vstd::arithmetic::div_mod::lemma_small_mod((d + m) as nat, p());
        }
    }
}

impl Fp {
    /// `PrimeField::CAPACITY` of `pasta_curves::Fp`: how many bits every
    /// element can hold, `254` in the source.
    #[verifier::external_body]
    pub fn capacity() -> (r: u32)
        ensures
            r == 254,
    {
        pasta_curves::Fp::CAPACITY
    }
}

} // verus!
