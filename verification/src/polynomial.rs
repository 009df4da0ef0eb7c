//! Polynomials over the Pallas base field by their coefficients, with the
//! two operations that accumulate them, scaling and addition, and
//! evaluation at a point.

use vstd::prelude::*;

use crate::field::{fadd, fmul, lemma_fadd_zero, lemma_fp_bounded, lemma_fmul_zero, p, Fp};
use crate::fold_revdot::{partial_revdot, revdot};

verus! {

broadcast use lemma_fp_bounded;

/// The value at `x` of the polynomial with coefficients `c`, lowest degree
/// first: `sum_i c[i] x^i`.
pub open spec fn peval(c: Seq<nat>, x: nat) -> nat
    decreases c.len(),
{
    if c.len() == 0 {
        0
    } else {
        fadd(c[0], fmul(x, peval(c.drop_first(), x)))
    }
}

/// The coefficients' values.
pub open spec fn coeff_vals(c: Seq<Fp>) -> Seq<nat> {
    c.map_values(|f: Fp| f@)
}

/// A polynomial by its coefficients, lowest degree first.
pub struct Polynomial {
    pub coeffs: Vec<Fp>,
}

impl Polynomial {
    /// The polynomial's value at `x`.
    pub open spec fn at(&self, x: nat) -> nat {
        peval(coeff_vals(self.coeffs@), x)
    }

    /// The polynomial with coefficients `coeffs`.
    pub fn new(coeffs: Vec<Fp>) -> (r: Polynomial)
        ensures
            r.coeffs@ == coeffs@,
    {
        Polynomial { coeffs }
    }

    /// The zero polynomial with `n` coefficients.
    pub fn with_zeros(n: usize) -> (r: Polynomial)
        ensures
            coeff_vals(r.coeffs@) == Seq::new(n as nat, |k: int| 0nat),
            forall|x: nat| #[trigger] r.at(x) == 0,
    {
        let mut coeffs: Vec<Fp> = Vec::new();
        let mut i: usize = 0;
        while i < n
            invariant
                i <= n,
                coeff_vals(coeffs@) == Seq::new(i as nat, |k: int| 0nat),
            decreases n - i,
        {
            let ghost before = coeffs@;
            coeffs.push(Fp::from_u64(0));
            i = i + 1;
            proof {
                assert(coeff_vals(coeffs@) =~= coeff_vals(before).push(0nat));
                assert(coeff_vals(coeffs@) =~= Seq::new(i as nat, |k: int| 0nat));
            }
        }
        let r = Polynomial { coeffs };
        proof {
            assert forall|x: nat| #[trigger] r.at(x) == 0 by {
                lemma_peval_all_zero(coeff_vals(r.coeffs@), x);
            }
        }
        r
    }

    /// Multiplies every coefficient by `by`.
    pub fn scale(&mut self, by: &Fp)
        ensures
            coeff_vals(final(self).coeffs@) == Seq::new(
                old(self).coeffs@.len(),
                |j: int| fmul(by@, coeff_vals(old(self).coeffs@)[j]),
            ),
            forall|x: nat| #[trigger] final(self).at(x) == fmul(by@, old(self).at(x)),
    {
        let ghost before = coeff_vals(self.coeffs@);
        let mut i: usize = 0;
        while i < self.coeffs.len()
            invariant
                i <= self.coeffs@.len(),
                self.coeffs@.len() == before.len(),
                forall|j: int| 0 <= j < i ==> (#[trigger] self.coeffs@[j])@ == fmul(by@, before[j]),
                forall|j: int| i <= j < self.coeffs@.len() ==> (#[trigger] self.coeffs@[j])@ == before[j],
            decreases before.len() - i,
        {
            let c = self.coeffs[i].mul(by);
            self.coeffs.set(i, c);
            proof {
                crate::field::lemma_fmul_comm(before[i as int], by@);
            }
            i = i + 1;
        }
        proof {
            assert(coeff_vals(self.coeffs@) =~= Seq::new(before.len(), |j: int| fmul(by@, before[j])));
            assert forall|x: nat| #[trigger] peval(coeff_vals(self.coeffs@), x) == fmul(by@, peval(before, x)) by {
                lemma_peval_scale(before, coeff_vals(self.coeffs@), by@, x);
            }
        }
    }

    /// Adds `other` coefficient by coefficient, extending this polynomial
    /// with zero coefficients to `other`'s length where it is shorter.
    pub fn add_assign(&mut self, other: &Polynomial)
        ensures
            final(self).coeffs@.len() == vstd::math::max(old(self).coeffs@.len() as int, other.coeffs@.len() as int),
            old(self).coeffs@.len() == other.coeffs@.len() ==> coeff_vals(final(self).coeffs@) == Seq::new(
                other.coeffs@.len(),
                |j: int| fadd(coeff_vals(old(self).coeffs@)[j], coeff_vals(other.coeffs@)[j]),
            ),
            forall|x: nat| #[trigger] final(self).at(x) == fadd(old(self).at(x), other.at(x)),
    {
        let ghost a = coeff_vals(self.coeffs@);
        let ghost b = coeff_vals(other.coeffs@);
        while self.coeffs.len() < other.coeffs.len()
            invariant
                a.len() <= self.coeffs@.len(),
                self.coeffs@.len() == a.len() || self.coeffs@.len() <= b.len(),
                b == coeff_vals(other.coeffs@),
                coeff_vals(self.coeffs@) == a + Seq::new((self.coeffs@.len() - a.len()) as nat, |k: int| 0nat),
            decreases other.coeffs@.len() - self.coeffs@.len(),
        {
            let ghost before = self.coeffs@;
            self.coeffs.push(Fp::from_u64(0));
            proof {
                assert(coeff_vals(self.coeffs@) =~= coeff_vals(before).push(0nat));
                assert(coeff_vals(self.coeffs@) =~= a + Seq::new((self.coeffs@.len() - a.len()) as nat, |k: int| 0nat));
            }
        }
        let ghost padded = coeff_vals(self.coeffs@);
        proof {
            assert forall|x: nat| #[trigger] peval(padded, x) == peval(a, x) by {
                lemma_peval_zeros(a, (self.coeffs@.len() - a.len()) as nat, x);
            }
        }
        let mut i: usize = 0;
        while i < other.coeffs.len()
            invariant
                i <= other.coeffs@.len(),
                other.coeffs@.len() <= self.coeffs@.len(),
                self.coeffs@.len() == padded.len(),
                b == coeff_vals(other.coeffs@),
                forall|j: int| 0 <= j < i ==> (#[trigger] self.coeffs@[j])@ == fadd(padded[j], b[j]),
                forall|j: int| i <= j < self.coeffs@.len() ==> (#[trigger] self.coeffs@[j])@ == padded[j],
            decreases other.coeffs@.len() - i,
        {
            let c = self.coeffs[i].add(&other.coeffs[i]);
            self.coeffs.set(i, c);
            i = i + 1;
        }
        proof {
            if a.len() == b.len() {
                assert(padded =~= a);
                assert(coeff_vals(self.coeffs@) =~= Seq::new(b.len(), |j: int| fadd(a[j], b[j])));
            }
            assert forall|x: nat| #[trigger] peval(coeff_vals(self.coeffs@), x) == fadd(peval(padded, x), peval(b, x)) by {
                lemma_peval_add(padded, b, coeff_vals(self.coeffs@), x);
            }
        }
    }

    /// The reversed dot product with `other`, of the same size:
    /// `sum_k self[k] * other[n - 1 - k]`.
    pub fn revdot(&self, other: &Polynomial) -> (r: Fp)
        requires
            self.coeffs@.len() == other.coeffs@.len(),
        ensures
            r@ == revdot(coeff_vals(self.coeffs@), coeff_vals(other.coeffs@)),
    {
        let n = self.coeffs.len();
        let ghost a = coeff_vals(self.coeffs@);
        let ghost b = coeff_vals(other.coeffs@);
        let mut acc = Fp::from_u64(0);
        let mut k: usize = 0;
        while k < n
            invariant
                k <= n,
                n == self.coeffs@.len(),
                n == other.coeffs@.len(),
                a == coeff_vals(self.coeffs@),
                b == coeff_vals(other.coeffs@),
                acc@ == partial_revdot(a, b, n as nat, k as nat),
            decreases n - k,
        {
            acc = acc.add(&self.coeffs[k].mul(&other.coeffs[n - 1 - k]));
            proof {
                let f = Seq::new((k + 1) as nat, |t: int| fmul(a[t], b[n - 1 - t]));
                assert(f.drop_last() =~= Seq::new(k as nat, |t: int| fmul(a[t], b[n - 1 - t])));
            }
            k = k + 1;
        }
        acc
    }

    /// The polynomial's value at `x`, by Horner's rule from the highest
    /// coefficient.
    pub fn eval(&self, x: &Fp) -> (r: Fp)
        ensures
            r@ == self.at(x@),
    {
        let ghost c = coeff_vals(self.coeffs@);
        let mut acc = Fp::from_u64(0);
        let mut i: usize = self.coeffs.len();
        while i > 0
            invariant
                i <= self.coeffs@.len(),
                c == coeff_vals(self.coeffs@),
                acc@ == peval(c.skip(i as int), x@),
            decreases i,
        {
            i = i - 1;
            acc = self.coeffs[i].add(&x.mul(&acc));
            proof {
                assert(c.skip(i as int).drop_first() =~= c.skip(i + 1));
            }
        }
        proof {
            assert(c.skip(0) =~= c);
        }
        acc
    }
}

/// Scaling every coefficient scales the value.
pub proof fn lemma_peval_scale(c: Seq<nat>, d: Seq<nat>, by: nat, x: nat)
    requires
        d.len() == c.len(),
        forall|j: int| 0 <= j < c.len() ==> #[trigger] d[j] == fmul(by, c[j]),
    ensures
        peval(d, x) == fmul(by, peval(c, x)),
    decreases c.len(),
{
    if c.len() == 0 {
        lemma_fmul_zero(by);
    } else {
        lemma_peval_scale(c.drop_first(), d.drop_first(), by, x);
        let t = peval(c.drop_first(), x);
        crate::field::lemma_fmul_assoc(x, by, t);
        crate::field::lemma_fmul_comm(x, by);
        crate::field::lemma_fmul_assoc(by, x, t);
        crate::field::lemma_fmul_distrib(by, c[0], fmul(x, t));
    }
}

/// Trailing zero coefficients do not change the value.
pub proof fn lemma_peval_zeros(c: Seq<nat>, k: nat, x: nat)
    ensures
        peval(c + Seq::new(k, |i: int| 0nat), x) == peval(c, x),
    decreases c.len(),
{
    let z = Seq::new(k, |i: int| 0nat);
    if c.len() == 0 {
        assert(c + z =~= z);
        lemma_peval_all_zero(z, x);
    } else {
        assert((c + z).drop_first() =~= c.drop_first() + z);
        lemma_peval_zeros(c.drop_first(), k, x);
    }
}

proof fn lemma_peval_all_zero(z: Seq<nat>, x: nat)
    requires
        forall|i: int| 0 <= i < z.len() ==> z[i] == 0,
    ensures
        peval(z, x) == 0,
    decreases z.len(),
{
    if z.len() > 0 {
        lemma_peval_all_zero(z.drop_first(), x);
        lemma_fmul_zero(x);
        lemma_fadd_zero(0);
    }
}

/// Adding coefficient by coefficient, with `b` no longer than `a`, adds the
/// values.
pub proof fn lemma_peval_add(a: Seq<nat>, b: Seq<nat>, s: Seq<nat>, x: nat)
    requires
        b.len() <= a.len(),
        s.len() == a.len(),
        forall|j: int| 0 <= j < b.len() ==> #[trigger] s[j] == fadd(a[j], b[j]),
        forall|j: int| b.len() <= j < a.len() ==> #[trigger] s[j] == a[j],
        forall|j: int| 0 <= j < a.len() ==> #[trigger] a[j] < p(),
    ensures
        peval(s, x) == fadd(peval(a, x), peval(b, x)),
    decreases a.len(),
{
    if a.len() == 0 {
        lemma_fadd_zero(0);
    } else if b.len() == 0 {
        assert forall|j: int| 0 <= j < a.len() implies s[j] == a[j] by {
        }
        assert(s =~= a);
        lemma_peval_bounded(a, x);
        lemma_fadd_zero(peval(a, x));
    } else {
        lemma_peval_add(a.drop_first(), b.drop_first(), s.drop_first(), x);
        let ta = peval(a.drop_first(), x);
        let tb = peval(b.drop_first(), x);
        crate::field::lemma_fmul_distrib(x, ta, tb);
        let xa = fmul(x, ta);
        let xb = fmul(x, tb);
        crate::field::lemma_fadd_assoc(a[0], b[0], fadd(xa, xb));
        crate::field::lemma_fadd_assoc(b[0], xa, xb);
        crate::field::lemma_fadd_comm(b[0], xa);
        crate::field::lemma_fadd_assoc(xa, b[0], xb);
        crate::field::lemma_fadd_assoc(a[0], xa, fadd(b[0], xb));
    }
}

pub proof fn lemma_peval_bounded(c: Seq<nat>, x: nat)
    ensures
        peval(c, x) < p(),
    decreases c.len(),
{
    if c.len() > 0 {
        lemma_peval_bounded(c.drop_first(), x);
    }
}

impl Clone for Polynomial {
    fn clone(&self) -> (r: Polynomial)
        ensures
            r.coeffs@ == self.coeffs@,
    {
        let mut coeffs: Vec<Fp> = Vec::new();
        let mut i: usize = 0;
        while i < self.coeffs.len()
            invariant
                i <= self.coeffs@.len(),
                coeffs@ == self.coeffs@.take(i as int),
            decreases self.coeffs@.len() - i,
        {
            coeffs.push(self.coeffs[i]);
            i = i + 1;
            proof {
                assert(coeffs@ =~= self.coeffs@.take(i as int));
            }
        }
        proof {
            assert(coeffs@ =~= self.coeffs@);
        }
        Polynomial { coeffs }
    }
}

/// A polynomial's value is a field element.
pub proof fn lemma_at_bounded(poly: &Polynomial, x: nat)
    ensures
        poly.at(x) < p(),
{
    lemma_peval_bounded(coeff_vals(poly.coeffs@), x);
}

} // verus!
