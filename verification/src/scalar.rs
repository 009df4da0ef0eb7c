//! The scalar field of Pallas (the base field of Vesta), with the
//! arithmetic that lifts an endoscalar to the scalar it multiplies points
//! by. The arithmetic is `pasta_curves`'; the contracts state it over
//! integers modulo `q`.

use ff::PrimeField;
use vstd::prelude::*;

use crate::endoscalar::endo_bit;
use crate::field::bytes_val;

verus! {

/// The modulus `q` of the Pallas scalar field.
pub open spec fn q() -> nat {
    0x40000000000000000000000000000000224698fc0994a8dd8c46eb2100000001nat
}

/// Addition modulo `q`.
pub open spec fn qadd(a: nat, b: nat) -> nat {
    (a + b) % q()
}

/// Multiplication modulo `q`.
pub open spec fn qmul(a: nat, b: nat) -> nat {
    (a * b) % q()
}

/// Negation modulo `q`.
pub open spec fn qneg(a: nat) -> nat {
    ((q() - a % q()) as nat) % q()
}

/// The value of `Fq::ZETA` in `pasta_curves`: a primitive cube root of
/// unity.
pub open spec fn qzeta() -> nat {
    0x06819a58283e528e511db4d81cf70f5a0fed467d47c033af2aa9d2e050aa0e4fnat
}

/// An element of the Pallas scalar field.
#[derive(Clone, Copy, Debug, PartialEq, Eq)]
pub struct Fq {
    pub(crate) bytes: [u8; 32],
}

impl Fq {
    #[verifier::type_invariant]
    spec fn canonical(self) -> bool {
        bytes_val(self.bytes) < q()
    }
}

impl View for Fq {
    type V = nat;

    closed spec fn view(&self) -> nat {
        bytes_val(self.bytes) % q()
    }
}

impl Fq {
    /// `From<u64>` of `pasta_curves::Fq`: the element `value`.
    #[verifier::external_body]
    pub fn from_u64(value: u64) -> (r: Fq)
        ensures
            r@ == value as nat,
    {
        Fq { bytes: pasta_curves::Fq::from(value).to_repr() }
    }

    /// `WithSmallOrderMulGroup::ZETA` of `pasta_curves::Fq`, whose source
    /// gives it as the constant [`qzeta`].
    #[verifier::external_body]
    pub fn zeta() -> (r: Fq)
        ensures
            r@ == qzeta(),
    {
        Fq { bytes: <pasta_curves::Fq as ff::WithSmallOrderMulGroup<3>>::ZETA.to_repr() }
    }

    /// `pasta_curves::Fq::add`: the sum modulo `q`.
    #[verifier::external_body]
    pub fn add(&self, other: &Fq) -> (r: Fq)
        ensures
            r@ == qadd(self@, other@),
    {
        let a = pasta_curves::Fq::from_repr(self.bytes).unwrap();
        let b = pasta_curves::Fq::from_repr(other.bytes).unwrap();
        Fq { bytes: (a + b).to_repr() }
    }

    /// `pasta_curves::Fq::neg`: the additive inverse modulo `q`.
    #[verifier::external_body]
    pub fn neg(&self) -> (r: Fq)
        ensures
            r@ == qneg(self@),
    {
        let a = pasta_curves::Fq::from_repr(self.bytes).unwrap();
        Fq { bytes: (-a).to_repr() }
    }

    /// `pasta_curves::Fq::mul`: the product modulo `q`.
    #[verifier::external_body]
    pub fn mul(&self, other: &Fq) -> (r: Fq)
        ensures
            r@ == qmul(self@, other@),
    {
        let a = pasta_curves::Fq::from_repr(self.bytes).unwrap();
        let b = pasta_curves::Fq::from_repr(other.bytes).unwrap();
        Fq { bytes: (a * b).to_repr() }
    }
}

/// The term that the pair of bits `(n, e)` contributes in Algorithm 2 of
/// [BGH19] in the scalar field: `1`, negated when `n` is set and multiplied
/// by `zeta` when `e` is set.
pub open spec fn qlift_term(n: bool, e: bool) -> nat {
    let t = if n { qneg(1) } else { 1 };
    if e { qmul(t, qzeta()) } else { t }
}

/// Algorithm 2 of [BGH19] in the scalar field on `v` after its first `k`
/// pairs of bits.
pub open spec fn qlift_acc(v: u128, k: nat) -> nat
    decreases k,
{
    if k == 0 {
        qadd(qadd(qzeta(), 1), qadd(qzeta(), 1))
    } else {
        let a = qlift_acc(v, (k - 1) as nat);
        qadd(qadd(a, a), qlift_term(endo_bit(v, 2 * (k - 1)), endo_bit(v, 2 * (k - 1) + 1)))
    }
}

/// The scalar that the endoscalar `v` multiplies Pallas points by.
pub open spec fn qlift_value(v: u128) -> nat {
    qlift_acc(v, 64)
}

/// The effective scalar of `endo` in the Pallas scalar field, by
/// Algorithm 2 of [BGH19].
pub fn lift_to_scalar(endo: u128) -> (r: Fq)
    ensures
        r@ == qlift_value(endo),
{
    let one = Fq::from_u64(1);
    let z = Fq::zeta();
    let base = z.add(&one);
    let mut acc = base.add(&base);
    let mut i: u128 = 0;
    while i < 64
        invariant
            i <= 64,
            one@ == 1,
            z@ == qzeta(),
            acc@ == qlift_acc(endo, i as nat),
        decreases 64 - i,
    {
        let bits = endo >> (i * 2);
        proof {
            crate::endoscalar::lemma_pair_bits(endo, (i * 2) as u128);
        }
        let mut tmp = Fq::from_u64(1);
        if bits & 1u128 != 0u128 {
            tmp = tmp.neg();
        }
        if bits & 2u128 != 0u128 {
            tmp = tmp.mul(&z);
        }
        acc = acc.add(&acc).add(&tmp);
        i = i + 1;
    }
    acc
}

} // verus!
