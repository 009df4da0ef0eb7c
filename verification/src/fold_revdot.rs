//! Horner-style folding that batch-reduces revdot claims in two layers.
//!
//! The first layer folds `NumGroups` groups of `GroupSize` claims each; the
//! second folds the `NumGroups` results into one. Folding `m` claims with
//! challenges `mu, nu` scales the left operands by powers of `mu^-1` and the
//! right ones by powers of `mu * nu`; the folded claim is then the Horner
//! evaluation of the `m x m` matrix of pairings, whose diagonal holds the
//! claimed values `k(y)` and whose off-diagonal entries are the error terms.

use core::marker::PhantomData;
use vstd::prelude::*;

use crate::element::{all_consistent, horner, vals, Element};
use crate::error::Error;
use crate::field::{fadd, fdiv, fmul, lemma_fadd_zero, lemma_fmul_zero, lemma_fp_bounded, p, Fp};
use crate::polynomial::{coeff_vals, peval, Polynomial};
use crate::simulator::Simulator;
use crate::vec::{ConstLen, FixedVec, Len};

verus! {

broadcast use lemma_fp_bounded;

/// The two operations a Horner-style fold needs: scale all components, then
/// add another item in.
pub trait Foldable: Sized {
    /// The neutral item a fold starts from.
    fn zero() -> Self;

    /// Scales this item by `by`.
    fn fold_scale(&mut self, by: &Fp);

    /// Adds `other` into this item.
    fn fold_add_assign(&mut self, other: &Self);
}

impl Foldable for Fp {
    fn zero() -> (r: Fp)
        ensures
            r@ == 0,
    {
        Fp::from_u64(0)
    }

    fn fold_scale(&mut self, by: &Fp)
        ensures
            final(self)@ == fmul(old(self)@, by@),
    {
        *self = self.mul(by);
    }

    fn fold_add_assign(&mut self, other: &Fp)
        ensures
            final(self)@ == fadd(old(self)@, other@),
    {
        *self = self.add(other);
    }
}

impl Foldable for Polynomial {
    /// The zero polynomial, with no coefficients.
    fn zero() -> (r: Polynomial)
        ensures
            r.coeffs@.len() == 0,
    {
        Polynomial::new(Vec::new())
    }

    /// Multiplies every coefficient by `by`.
    fn fold_scale(&mut self, by: &Fp)
        ensures
            coeff_vals(final(self).coeffs@) == Seq::new(
                old(self).coeffs@.len(),
                |j: int| fmul(by@, coeff_vals(old(self).coeffs@)[j]),
            ),
            forall|x: nat| #[trigger] final(self).at(x) == fmul(by@, old(self).at(x)),
    {
        self.scale(by);
    }

    /// Adds `other` coefficient by coefficient.
    fn fold_add_assign(&mut self, other: &Polynomial)
        ensures
            final(self).coeffs@.len() == vstd::math::max(old(self).coeffs@.len() as int, other.coeffs@.len() as int),
            old(self).coeffs@.len() == other.coeffs@.len() ==> coeff_vals(final(self).coeffs@) == Seq::new(
                other.coeffs@.len(),
                |j: int| fadd(coeff_vals(old(self).coeffs@)[j], coeff_vals(other.coeffs@)[j]),
            ),
            forall|x: nat| #[trigger] final(self).at(x) == fadd(old(self).at(x), other.at(x)),
    {
        self.add_assign(other);
    }
}

/// The values of a sequence of field elements.
pub open spec fn fp_vals(s: Seq<Fp>) -> Seq<nat> {
    s.map_values(|f: Fp| f@)
}

/// Horner fold of `items` by `scale_factor`, starting from zero: the first
/// item carries the highest power.
pub fn fold(items: &[Fp], scale_factor: &Fp) -> (r: Fp)
    ensures
        r@ == horner(fp_vals(items@), scale_factor@),
{
    let mut acc = <Fp as Foldable>::zero();
    let mut i: usize = 0;
    while i < items.len()
        invariant
            i <= items@.len(),
            acc@ == horner(fp_vals(items@.take(i as int)), scale_factor@),
        decreases items@.len() - i,
    {
        acc.fold_scale(scale_factor);
        acc.fold_add_assign(&items[i]);
        proof {
            assert(fp_vals(items@.take(i + 1)).drop_last() =~= fp_vals(items@.take(i as int)));
        }
        i = i + 1;
    }
    proof {
        assert(items@.take(items@.len() as int) =~= items@);
    }
    acc
}

/// The parameters `(m, n)` of the two-layer reduction: `NumGroups` groups of
/// `GroupSize` claims each.
pub trait Parameters {
    type NumGroups: Len;
    type GroupSize: Len;
}

/// The number of error terms when folding `L::len()` claims: the `m * (m - 1)`
/// off-diagonal entries of an `m x m` matrix.
pub struct NumErrorTerms<L: Len>(PhantomData<L>);

impl<L: Len> Len for NumErrorTerms<L> {
    open spec fn length() -> nat {
        (L::length() * L::length() - L::length()) as nat
    }

    fn len() -> (r: usize) {
        proof {
            let n = L::length();
            if n >= 2 {
                assert(n * n - n >= n) by (nonlinear_arith)
                    requires
                        n >= 2;
            }
        }
        let n = L::len();
        proof {
            assert(n * n - n == n * (n - 1)) by (nonlinear_arith);
        }
        if n == 0 {
            0
        } else {
            n * (n - 1)
        }
    }
}

/// The position of the off-diagonal pair `(i, j)` in row-major order.
pub open spec fn offdiag_index(n: nat, i: nat, j: nat) -> nat {
    (i * (n - 1) + if j < i { j } else { (j - 1) as nat }) as nat
}

/// The `k`-th off-diagonal pair `(i, j)`, `i != j`, in row-major order.
pub open spec fn offdiag_pair(n: nat, k: nat) -> (nat, nat) {
    let i = k / (n - 1) as nat;
    let jj = k % (n - 1) as nat;
    (i, if jj < i { jj } else { jj + 1 })
}

/// The off-diagonal pairs `(i, j)` with `i != j < n`, in row-major order.
pub fn off_diagonal_pairs(n: usize) -> (r: Vec<(usize, usize)>)
    requires
        n * n <= usize::MAX,
    ensures
        r@.len() == n * n - n,
        forall|k: int| 0 <= k < r@.len() ==> {
            let (i, j) = #[trigger] r@[k];
            &&& i < n && j < n && i != j
            &&& offdiag_index(n as nat, i as nat, j as nat) == k
        },
{
    let mut r: Vec<(usize, usize)> = Vec::new();
    let mut i: usize = 0;
    while i < n
        invariant
            i <= n,
            n * n <= usize::MAX,
            r@.len() == i * (n - 1) || (n == 0 && r@.len() == 0),
            forall|k: int| 0 <= k < r@.len() ==> {
                let (a, b) = #[trigger] r@[k];
                &&& a < n && b < n && a != b
                &&& offdiag_index(n as nat, a as nat, b as nat) == k
            },
        decreases n - i,
    {
        let mut j: usize = 0;
        while j < n
            invariant
                i < n,
                j <= n,
                n * n <= usize::MAX,
                r@.len() == i * (n - 1) + if j <= i { j as int } else { j - 1 },
                forall|k: int| 0 <= k < r@.len() ==> {
                    let (a, b) = #[trigger] r@[k];
                    &&& a < n && b < n && a != b
                    &&& offdiag_index(n as nat, a as nat, b as nat) == k
                },
            decreases n - j,
        {
            if i != j {
                r.push((i, j));
            }
            j = j + 1;
        }
        proof {
            assert(i * (n - 1) + (n - 1) == (i + 1) * (n - 1)) by (nonlinear_arith);
        }
        i = i + 1;
    }
    proof {
        if n > 0 {
            assert(n * (n - 1) == n * n - n) by (nonlinear_arith);
        }
    }
    r
}

/// The `g`-th group of `m` entries of `s`, padded with zeros.
pub open spec fn chunk_padded(s: Seq<nat>, m: nat, g: nat) -> Seq<nat> {
    Seq::new(m, |k: int| if g * m + k < s.len() { s[g * m + k] } else { 0 })
}

/// The Horner folds by `x` of the first `groups` padded groups of `m`
/// entries of `s`.
pub open spec fn fold_groups(s: Seq<nat>, m: nat, groups: nat, x: nat) -> Seq<nat> {
    Seq::new(groups, |g: int| horner(chunk_padded(s, m, g as nat), x))
}

/// The coefficients of polynomials.
pub open spec fn poly_coeffs(ps: Seq<Polynomial>) -> Seq<Seq<nat>> {
    ps.map_values(|q: Polynomial| coeff_vals(q.coeffs@))
}

/// The values at `x` of polynomials.
pub open spec fn poly_values(ps: Seq<Polynomial>, x: nat) -> Seq<nat> {
    ps.map_values(|q: Polynomial| q.at(x))
}

/// Whether every polynomial of `ps` has `n` coefficients.
pub open spec fn sized(ps: Seq<Polynomial>, n: nat) -> bool {
    forall|i: int| 0 <= i < ps.len() ==> (#[trigger] ps[i]).coeffs@.len() == n
}

/// The number of coefficients of the first polynomial of `ps`, zero when
/// there is none.
pub open spec fn size_of(ps: Seq<Polynomial>) -> nat {
    if ps.len() == 0 {
        0
    } else {
        ps[0].coeffs@.len()
    }
}

/// `n` zero coefficients.
pub open spec fn zeros(n: nat) -> Seq<nat> {
    Seq::new(n, |k: int| 0nat)
}

/// The `g`-th group of `m` coefficient vectors of `vs`, absent ones taken
/// as the zero vector of size `n`.
pub open spec fn chunk_vectors(vs: Seq<Seq<nat>>, m: nat, g: nat, n: nat) -> Seq<Seq<nat>> {
    Seq::new(m, |k: int| if g * m + k < vs.len() { vs[g * m + k] } else { zeros(n) })
}

/// The number of coefficients of `source`, which all have the same.
fn common_size(source: &[Polynomial]) -> (r: usize)
    requires
        sized(source@, size_of(source@)),
    ensures
        r == size_of(source@),
{
    if source.len() == 0 {
        0
    } else {
        source[0].coeffs.len()
    }
}

/// Horner fold by `scale_factor` of polynomials of `n` coefficients,
/// starting from zero: the first item carries the highest power. Each
/// coefficient of the result is the fold of that coefficient of the items,
/// and the value of the result at any point is the fold of the items'
/// values there.
pub fn fold_polys(items: &[Polynomial], n: usize, scale_factor: &Fp) -> (r: Polynomial)
    requires
        sized(items@, n as nat),
    ensures
        r.coeffs@.len() == n,
        coeff_vals(r.coeffs@) == vfold(poly_coeffs(items@), n as nat, scale_factor@),
        forall|x: nat| #[trigger] r.at(x) == horner(poly_values(items@, x), scale_factor@),
{
    let ghost sf = scale_factor@;
    let mut acc = Polynomial::with_zeros(n);
    proof {
        assert(coeff_vals(acc.coeffs@) =~= vfold(poly_coeffs(items@.take(0)), n as nat, sf));
    }
    let mut i: usize = 0;
    while i < items.len()
        invariant
            i <= items@.len(),
            sf == scale_factor@,
            sized(items@, n as nat),
            acc.coeffs@.len() == n,
            coeff_vals(acc.coeffs@) == vfold(poly_coeffs(items@.take(i as int)), n as nat, sf),
            forall|x: nat| #[trigger] acc.at(x) == horner(poly_values(items@.take(i as int), x), sf),
        decreases items@.len() - i,
    {
        let ghost before = acc;
        acc.fold_scale(scale_factor);
        let ghost scaled = acc;
        acc.fold_add_assign(&items[i]);
        proof {
            let t1 = items@.take(i + 1);
            let t0 = items@.take(i as int);
            let item = items@[i as int];
            assert(item.coeffs@.len() == n);
            assert(coeff_vals(scaled.coeffs@).len() == n);
            assert(scaled.coeffs@.len() == n);
            assert forall|k: int| 0 <= k < n implies #[trigger] coeff_vals(acc.coeffs@)[k] == vfold(poly_coeffs(t1), n as nat, sf)[k] by {
                assert(coeff_vals(scaled.coeffs@)[k] == fmul(sf, coeff_vals(before.coeffs@)[k]));
                assert(coeff_vals(acc.coeffs@)[k] == fadd(coeff_vals(scaled.coeffs@)[k], coeff_vals(item.coeffs@)[k]));
                assert(coeff_vals(before.coeffs@)[k] == horner(column(poly_coeffs(t0), k), sf));
                assert(column(poly_coeffs(t1), k).drop_last() =~= column(poly_coeffs(t0), k));
                assert(column(poly_coeffs(t1), k).last() == coeff_vals(item.coeffs@)[k]);
                crate::field::lemma_fmul_comm(sf, horner(column(poly_coeffs(t0), k), sf));
            }
            assert(coeff_vals(acc.coeffs@) =~= vfold(poly_coeffs(t1), n as nat, sf));
            assert forall|x: nat| #[trigger] acc.at(x) == horner(poly_values(t1, x), sf) by {
                assert(poly_values(t1, x).drop_last() =~= poly_values(t0, x));
                crate::field::lemma_fmul_comm(sf, before.at(x));
            }
        }
        i = i + 1;
    }
    proof {
        assert(items@.take(items@.len() as int) =~= items@);
    }
    acc
}

/// First layer of the reduction: folds each group of `GroupSize`
/// polynomials by `scale_factor`, taking absent ones as zero. Folding the
/// values of the polynomials at any point gives the values of the folds.
pub fn fold_inner<P: Parameters>(source: &[Polynomial], scale_factor: &Fp) -> (r: FixedVec<Polynomial, P::NumGroups>)
    requires
        0 < P::GroupSize::length() <= usize::MAX,
        P::NumGroups::length() <= usize::MAX,
        P::GroupSize::length() * P::NumGroups::length() <= usize::MAX,
        source@.len() <= P::GroupSize::length() * P::NumGroups::length(),
        sized(source@, size_of(source@)),
    ensures
        sized(r@, size_of(source@)),
        forall|g: int|
            0 <= g < P::NumGroups::length() ==> coeff_vals((#[trigger] r@[g]).coeffs@) == vfold(
                chunk_vectors(poly_coeffs(source@), P::GroupSize::length(), g as nat, size_of(source@)),
                size_of(source@),
                scale_factor@,
            ),
        forall|g: int, x: nat|
            0 <= g < P::NumGroups::length() ==> #[trigger] r@[g].at(x) == horner(
                chunk_padded(poly_values(source@, x), P::GroupSize::length(), g as nat),
                scale_factor@,
            ),
{
    proof {
        vstd::arithmetic::mul::lemma_mul_inequality(1, P::GroupSize::length() as int, P::NumGroups::length() as int);
        if P::NumGroups::length() > 0 {
            vstd::arithmetic::mul::lemma_mul_inequality(1, P::NumGroups::length() as int, P::GroupSize::length() as int);
        }
    }
    let m = P::GroupSize::len();
    let groups = P::NumGroups::len();
    let n = common_size(source);
    let ghost cs = poly_coeffs(source@);
    let ghost sf = scale_factor@;
    let mut out: Vec<Polynomial> = Vec::new();
    let mut g: usize = 0;
    while g < groups
        invariant
            g <= groups,
            m == P::GroupSize::length(),
            groups == P::NumGroups::length(),
            m > 0,
            m * groups <= usize::MAX,
            n == size_of(source@),
            sized(source@, n as nat),
            cs == poly_coeffs(source@),
            sf == scale_factor@,
            out@.len() == g,
            sized(out@, n as nat),
            forall|h: int|
                0 <= h < g ==> coeff_vals((#[trigger] out@[h]).coeffs@) == vfold(
                    chunk_vectors(cs, m as nat, h as nat, n as nat),
                    n as nat,
                    sf,
                ),
            forall|h: int, x: nat|
                0 <= h < g ==> #[trigger] out@[h].at(x) == horner(
                    chunk_padded(poly_values(source@, x), m as nat, h as nat),
                    sf,
                ),
        decreases groups - g,
    {
        proof {
            assert((g + 1) * m <= m * groups) by (nonlinear_arith)
                requires
                    g < groups;
        }
        let mut chunk: Vec<Polynomial> = Vec::new();
        let mut k: usize = 0;
        while k < m
            invariant
                k <= m,
                g < groups,
                (g + 1) * m <= usize::MAX,
                n == size_of(source@),
                sized(source@, n as nat),
                cs == poly_coeffs(source@),
                chunk@.len() == k,
                sized(chunk@, n as nat),
                forall|t: int| 0 <= t < k ==> coeff_vals((#[trigger] chunk@[t]).coeffs@) == chunk_vectors(
                    cs,
                    m as nat,
                    g as nat,
                    n as nat,
                )[t],
                forall|t: int, x: nat| 0 <= t < k ==> #[trigger] chunk@[t].at(x) == chunk_padded(
                    poly_values(source@, x),
                    m as nat,
                    g as nat,
                )[t],
            decreases m - k,
        {
            proof {
                assert(g * m + k < (g + 1) * m) by (nonlinear_arith)
                    requires
                        k < m;
            }
            let ghost before = chunk@;
            if g * m + k < source.len() {
                chunk.push(source[g * m + k].clone());
            } else {
                chunk.push(Polynomial::with_zeros(n));
            }
            proof {
                assert(chunk@ == before.push(chunk@[k as int]));
                assert(coeff_vals(chunk@[k as int].coeffs@).len() == n);
                assert forall|t: int| 0 <= t < chunk@.len() implies (#[trigger] chunk@[t]).coeffs@.len() == n by {
                    if t < k {
                        assert(chunk@[t] == before[t]);
                    }
                }
            }
            k = k + 1;
        }
        let folded = fold_polys(chunk.as_slice(), n, scale_factor);
        proof {
            assert(poly_coeffs(chunk@) =~= chunk_vectors(cs, m as nat, g as nat, n as nat));
            assert forall|x: nat| #[trigger] poly_values(chunk@, x) == chunk_padded(poly_values(source@, x), m as nat, g as nat) by {
                assert(poly_values(chunk@, x) =~= chunk_padded(poly_values(source@, x), m as nat, g as nat));
            }
        }
        out.push(folded);
        g = g + 1;
    }
    FixedVec::new(out).unwrap()
}

/// Second layer of the reduction: folds the `NumGroups` polynomials by
/// `scale_factor`.
pub fn fold_outer<P: Parameters>(source: FixedVec<Polynomial, P::NumGroups>, scale_factor: &Fp) -> (r: Polynomial)
    requires
        sized(source@, size_of(source@)),
    ensures
        r.coeffs@.len() == size_of(source@),
        coeff_vals(r.coeffs@) == vfold(poly_coeffs(source@), size_of(source@), scale_factor@),
        forall|x: nat| #[trigger] r.at(x) == horner(poly_values(source@, x), scale_factor@),
{
    let items = source.as_slice();
    let n = common_size(items);
    fold_polys(items, n, scale_factor)
}

/// Row `i` of the claim matrix: the claimed value `ky[i]` on the diagonal
/// and the error terms elsewhere, in row-major order.
pub open spec fn claim_row(errors: Seq<nat>, ky: Seq<nat>, n: nat, i: nat) -> Seq<nat> {
    Seq::new(n, |j: int| if j == i { ky[i as int] } else { errors[offdiag_index(n, i, j as nat) as int] })
}

/// The folded claim: Horner by `x` over the rows of the claim matrix, each
/// row folded by Horner with `y`.
pub open spec fn claim_fold(errors: Seq<nat>, ky: Seq<nat>, n: nat, x: nat, y: nat) -> nat {
    horner(Seq::new(n, |i: int| horner(claim_row(errors, ky, n, i as nat), y)), x)
}

/// Precomputed `mu * nu` and `mu^-1` for computing folded revdot claims.
pub struct ClaimFolder {
    mu_nu: Element,
    mu_inv: Element,
}

impl ClaimFolder {
    /// The value of `mu * nu`.
    pub closed spec fn mu_nu_val(&self) -> nat {
        self.mu_nu.val()
    }

    /// The value of `mu^-1`.
    pub closed spec fn mu_inv_val(&self) -> nat {
        self.mu_inv.val()
    }

    /// Whether both precomputed elements carry their values.
    pub closed spec fn consistent(&self) -> bool {
        self.mu_nu.consistent() && self.mu_inv.consistent()
    }

    /// Creates a folding context from `mu` and `nu`, at the cost of two
    /// gates.
    pub fn new(dr: &mut Simulator, mu: &Element, nu: &Element) -> (r: Result<ClaimFolder, Error>)
        requires
            old(dr).room(2, 4),
        ensures
            r is Ok <==> mu.consistent() && nu.consistent() && mu.val() != 0,
            r matches Ok(f) ==> {
                &&& f.mu_nu_val() == fmul(mu.val(), nu.val())
                &&& fmul(mu.val(), f.mu_inv_val()) == 1
                &&& f.mu_inv_val() == fdiv(1, mu.val())
                &&& f.consistent()
                &&& old(dr).grew(*final(dr), 2, 4)
            },
    {
        let mu_nu = mu.mul(dr, nu)?;
        let mu_inv = mu.invert(dr)?;
        Ok(ClaimFolder { mu_nu, mu_inv })
    }

    /// The folded claim of a group of `GroupSize` claims.
    pub fn fold_inner<P: Parameters>(
        &self,
        dr: &mut Simulator,
        error_terms: &FixedVec<Element, NumErrorTerms<P::GroupSize>>,
        ky_values: &FixedVec<Element, P::GroupSize>,
    ) -> (r: Result<Element, Error>)
        requires
            1 <= P::GroupSize::length(),
            P::GroupSize::length() * P::GroupSize::length() <= usize::MAX,
            old(dr).room(
                P::GroupSize::length() * P::GroupSize::length(),
                2 * P::GroupSize::length() * P::GroupSize::length(),
            ),
        ensures
            self.consistent() && all_consistent(error_terms@) && all_consistent(ky_values@) ==> r is Ok,
            r matches Ok(e) ==> {
                let n = P::GroupSize::length();
                &&& e.val() == claim_fold(vals(error_terms@), vals(ky_values@), n, self.mu_inv_val(), self.mu_nu_val())
                &&& self.consistent() && all_consistent(error_terms@) && all_consistent(ky_values@) ==> e.consistent()
                &&& old(dr).grew(*final(dr), (n * n - 1) as nat, (2 * (n * n - 1)) as nat)
            },
    {
        fold_products_impl::<P::GroupSize>(dr, &self.mu_nu, &self.mu_inv, error_terms, ky_values)
    }

    /// The folded claim of the `NumGroups` group results.
    pub fn fold_outer<P: Parameters>(
        &self,
        dr: &mut Simulator,
        error_terms: &FixedVec<Element, NumErrorTerms<P::NumGroups>>,
        ky_values: &FixedVec<Element, P::NumGroups>,
    ) -> (r: Result<Element, Error>)
        requires
            1 <= P::NumGroups::length(),
            P::NumGroups::length() * P::NumGroups::length() <= usize::MAX,
            old(dr).room(
                P::NumGroups::length() * P::NumGroups::length(),
                2 * P::NumGroups::length() * P::NumGroups::length(),
            ),
        ensures
            self.consistent() && all_consistent(error_terms@) && all_consistent(ky_values@) ==> r is Ok,
            r matches Ok(e) ==> {
                let n = P::NumGroups::length();
                &&& e.val() == claim_fold(vals(error_terms@), vals(ky_values@), n, self.mu_inv_val(), self.mu_nu_val())
                &&& self.consistent() && all_consistent(error_terms@) && all_consistent(ky_values@) ==> e.consistent()
                &&& old(dr).grew(*final(dr), (n * n - 1) as nat, (2 * (n * n - 1)) as nat)
            },
    {
        fold_products_impl::<P::NumGroups>(dr, &self.mu_nu, &self.mu_inv, error_terms, ky_values)
    }
}

/// The folded claim for `S::len()` claims from the error terms and the
/// claimed values.
fn fold_products_impl<S: Len>(
    dr: &mut Simulator,
    mu_nu: &Element,
    mu_inv: &Element,
    error_terms: &FixedVec<Element, NumErrorTerms<S>>,
    ky_values: &FixedVec<Element, S>,
) -> (r: Result<Element, Error>)
    requires
        1 <= S::length(),
        S::length() * S::length() <= usize::MAX,
        old(dr).room(S::length() * S::length(), 2 * S::length() * S::length()),
    ensures
        mu_nu.consistent() && mu_inv.consistent() && all_consistent(error_terms@) && all_consistent(
            ky_values@,
        ) ==> r is Ok,
        r matches Ok(e) ==> {
            let n = S::length();
            &&& e.val() == claim_fold(vals(error_terms@), vals(ky_values@), n, mu_inv.val(), mu_nu.val())
            &&& mu_nu.consistent() && mu_inv.consistent() && all_consistent(error_terms@)
                && all_consistent(ky_values@) ==> e.consistent()
            &&& old(dr).grew(*final(dr), (n * n - 1) as nat, (2 * (n * n - 1)) as nat)
        },
{
    let ghost nn = S::length();
    proof {
        assert(nn <= nn * nn) by (nonlinear_arith)
            requires
                nn >= 1;
        assert(nn * nn - nn == nn * (nn - 1)) by (nonlinear_arith);
        assert(2 * nn * nn == 2 * (nn * nn)) by (nonlinear_arith);
    }
    let n = S::len();
    let err_len = error_terms.len();
    let ky_len = ky_values.len();
    let ghost errs = vals(error_terms@);
    let ghost kys = vals(ky_values@);
    let ghost y = mu_nu.val();
    let ghost x = mu_inv.val();
    let ghost d0 = *dr;
    let ghost good = mu_nu.consistent() && mu_inv.consistent() && all_consistent(error_terms@)
        && all_consistent(ky_values@);
    let mut rows: Vec<Element> = Vec::new();
    let mut i: usize = 0;
    while i < n
        invariant
            i <= n,
            n == nn,
            nn >= 1,
            nn * nn <= usize::MAX,
            err_len == nn * (nn - 1),
            ky_len == nn,
            errs == vals(error_terms@),
            kys == vals(ky_values@),
            error_terms@.len() == err_len,
            ky_values@.len() == ky_len,
            x == mu_inv.val(),
            y == mu_nu.val(),
            good == (mu_nu.consistent() && mu_inv.consistent() && all_consistent(error_terms@)
                && all_consistent(ky_values@)),
            rows@.len() == i,
            forall|r: int| 0 <= r < i ==> #[trigger] rows@[r].val() == horner(claim_row(errs, kys, nn, r as nat), y),
            good ==> all_consistent(rows@),
            dr.gates() == d0.gates() + i * (nn - 1),
            dr.constraints() == d0.constraints() + 2 * (i * (nn - 1)),
            d0.room(nn * nn, 2 * (nn * nn)),
        decreases n - i,
    {
        let mut row: Vec<Element> = Vec::new();
        let mut j: usize = 0;
        proof {
            assert(i * (nn - 1) + (nn - 1) <= nn * (nn - 1)) by (nonlinear_arith)
                requires
                    i < nn;
        }
        while j < n
            invariant
                i < n,
                j <= n,
                n == nn,
                nn >= 1,
                err_len == nn * (nn - 1),
                ky_len == nn,
                i * (nn - 1) + (nn - 1) <= nn * (nn - 1),
                errs == vals(error_terms@),
                kys == vals(ky_values@),
                error_terms@.len() == err_len,
                ky_values@.len() == ky_len,
                row@.len() == j,
                forall|c: int| 0 <= c < j ==> #[trigger] row@[c].val() == claim_row(errs, kys, nn, i as nat)[c],
                good == (mu_nu.consistent() && mu_inv.consistent() && all_consistent(error_terms@)
                    && all_consistent(ky_values@)),
                good ==> all_consistent(row@),
            decreases n - j,
        {
            if i == j {
                row.push(*ky_values.get(i));
            } else {
                let k = if j < i {
                    i * (n - 1) + j
                } else {
                    i * (n - 1) + (j - 1)
                };
                row.push(*error_terms.get(k));
            }
            j = j + 1;
        }
        proof {
            assert(vals(row@) =~= claim_row(errs, kys, nn, i as nat));
        }
        proof {
            assert(i * (nn - 1) + nn <= nn * nn) by (nonlinear_arith)
                requires
                    i < nn;
        }
        let folded = Element::fold(dr, row.as_slice(), mu_nu)?;
        let ghost before = rows@;
        rows.push(folded);
        proof {
            assert(rows@ == before.push(folded));
            assert((i + 1) * (nn - 1) == i * (nn - 1) + (nn - 1)) by (nonlinear_arith);

        }
        i = i + 1;
    }
    proof {
        assert(nn * (nn - 1) + nn == nn * nn) by (nonlinear_arith);
    }
    let ghost d1 = *dr;
    let r = Element::fold(dr, rows.as_slice(), mu_inv)?;
    proof {
        assert(nn * (nn - 1) + (nn - 1) == nn * nn - 1) by (nonlinear_arith)
            requires
                nn >= 1;
        assert(2 * (nn * (nn - 1)) + 2 * (nn - 1) == 2 * (nn * nn - 1)) by (nonlinear_arith)
            requires
                nn >= 1;
        assert(vals(rows@) =~= Seq::new(nn, |i: int| horner(claim_row(errs, kys, nn, i as nat), y)));
        assert(rows@.len() > 0);
        assert(d1.gates() == d0.gates() + nn * (nn - 1));
        assert(dr.gates() == d1.gates() + (nn - 1));
        if good {
            assert(rows@.last() == rows@[nn - 1]);
        }
    }
    Ok(r)
}

} // verus!

verus! {

/// The number of groups of `m` among `len` sources, the last one possibly
/// partial.
pub open spec fn num_chunks(len: nat, m: nat) -> nat {
    ((len + m - 1) / (m as int)) as nat
}

/// The number of first-layer results that the second layer of
/// [`fold_two_layer`] folds: one per group of sources, and at least `n`.
pub open spec fn two_layer_groups(len: nat, m: nat, n: nat) -> nat {
    if num_chunks(len, m) < n {
        n
    } else {
        num_chunks(len, m)
    }
}

/// The gates [`fold_two_layer`] spends: `m - 1` per group of sources and
/// one less than the number of first-layer results.
pub open spec fn two_layer_gates(len: nat, m: nat, n: nat) -> nat {
    let r = two_layer_groups(len, m, n);
    num_chunks(len, m) * (m - 1) as nat + if r > 0 { (r - 1) as nat } else { 0 }
}

/// Whether the first-layer fold of the `g`-th group of `s` succeeds: the
/// scale factor and every entry of the group but its last carry their
/// values (the zeros that pad a partial group always do).
pub open spec fn group_fold_ok(s: Seq<Element>, m: nat, g: nat, scale: Element) -> bool {
    m <= 1 || (scale.consistent() && forall|i: int|
        g * m <= i < g * m + m - 1 && i < s.len() ==> #[trigger] s[i].consistent())
}

/// Whether the first-layer result of the `g`-th group of `s` carries its
/// value: the last entry of the padded group does.
pub open spec fn group_last_consistent(s: Seq<Element>, m: nat, g: nat) -> bool {
    (g + 1) * m - 1 < s.len() ==> s[(g + 1) * m - 1].consistent()
}

/// Whether [`fold_two_layer`] succeeds on `s`.
pub open spec fn two_layer_ok(s: Seq<Element>, m: nat, n: nat, l1: Element, l2: Element) -> bool {
    let c = num_chunks(s.len(), m);
    let r = two_layer_groups(s.len(), m, n);
    &&& forall|g: nat| g < c ==> #[trigger] group_fold_ok(s, m, g, l1)
    &&& (r <= 1 || (l2.consistent() && forall|g: nat|
        g + 1 < r && g < c ==> #[trigger] group_last_consistent(s, m, g)))
}

proof fn lemma_num_chunks(len: nat, m: nat, g: nat)
    requires
        m > 0,
    ensures
        (g < num_chunks(len, m)) <==> g * m < len,
{
    let t: int = len + m - 1;
    let q = t / (m as int);
    let r = t % (m as int);
    vstd::arithmetic::div_mod::lemma_fundamental_div_mod(t, m as int);
    vstd::arithmetic::div_mod::lemma_mod_bound(t, m as int);
    assert(q >= 0) by (nonlinear_arith)
        requires
            t == m * q + r,
            0 <= r < m,
            t >= 0,
    ;
    if g < q {
        assert(g * m < len) by (nonlinear_arith)
            requires
                g < q,
                t == m * q + r,
                0 <= r < m,
                t == len + m - 1,
                m > 0,
        ;
    } else {
        assert(g * m >= len) by (nonlinear_arith)
            requires
                g >= q,
                t == m * q + r,
                0 <= r < m,
                t == len + m - 1,
                m > 0,
        ;
    }
}

proof fn lemma_horner_zeros(s: Seq<nat>, x: nat)
    requires
        forall|i: int| 0 <= i < s.len() ==> s[i] == 0,
    ensures
        horner(s, x) == 0,
    decreases s.len(),
{
    if s.len() > 0 {
        lemma_horner_zeros(s.drop_last(), x);
        lemma_fmul_zero(x);
        crate::field::lemma_fmul_comm(0, x);
    }
}

/// When every source and both scales carry their values, [`fold_two_layer`]
/// succeeds.
pub proof fn lemma_two_layer_ok_consistent(s: Seq<Element>, m: nat, n: nat, l1: Element, l2: Element)
    requires
        m > 0,
        all_consistent(s),
        l1.consistent(),
        l2.consistent(),
    ensures
        two_layer_ok(s, m, n, l1, l2),
{
    assert forall|g: nat| g < num_chunks(s.len(), m) implies #[trigger] group_fold_ok(s, m, g, l1) by {
        if m > 1 {
            assert forall|i: int| g * m <= i < g * m + m - 1 && i < s.len() implies #[trigger] s[i].consistent() by {
                assert(g * m >= 0) by (nonlinear_arith);
            }
        }
    }
    assert forall|g: nat| g + 1 < two_layer_groups(s.len(), m, n) && g < num_chunks(s.len(), m) implies #[trigger] group_last_consistent(s, m, g) by {
        let idx: int = (g + 1) * m - 1;
        assert((g + 1) * m >= 1) by (nonlinear_arith)
            requires
                m > 0,
        ;
        if idx < s.len() {
            assert(s[idx].consistent());
        }
    }
}

/// The gates [`fold_two_layer`] spends are within the room it asks for.
pub proof fn lemma_two_layer_gates_bound(len: nat, m: nat, n: nat)
    requires
        m > 0,
    ensures
        two_layer_gates(len, m, n) <= len + m + two_layer_groups(len, m, n),
{
    let c = num_chunks(len, m);
    let t: int = len + m - 1;
    vstd::arithmetic::div_mod::lemma_fundamental_div_mod(t, m as int);
    vstd::arithmetic::div_mod::lemma_mod_bound(t, m as int);
    assert(c * m <= t) by (nonlinear_arith)
        requires
            c == t / (m as int),
            t == (m as int) * (t / (m as int)) + t % (m as int),
            t % (m as int) >= 0,
    ;
    assert(c * ((m - 1) as nat) <= c * m) by (nonlinear_arith)
        requires
            m > 0,
    ;
}

/// Folds `sources` in two layers: each group of `GroupSize` sources, padded
/// with zeros, by `layer1_scale`; then the results, padded with zeros to at
/// least `NumGroups` of them, by `layer2_scale`.
#[verifier::rlimit(30)]
pub fn fold_two_layer<P: Parameters>(
    dr: &mut Simulator,
    sources: &[Element],
    layer1_scale: &Element,
    layer2_scale: &Element,
) -> (r: Result<Element, Error>)
    requires
        0 < P::GroupSize::length() <= usize::MAX,
        P::NumGroups::length() <= usize::MAX,
        sources@.len() + P::GroupSize::length() <= usize::MAX,
        old(dr).room(
            sources@.len() + P::GroupSize::length() + two_layer_groups(
                sources@.len(),
                P::GroupSize::length(),
                P::NumGroups::length(),
            ),
            2 * (sources@.len() + P::GroupSize::length() + two_layer_groups(
                sources@.len(),
                P::GroupSize::length(),
                P::NumGroups::length(),
            )),
        ),
    ensures
        r is Ok <==> two_layer_ok(
            sources@,
            P::GroupSize::length(),
            P::NumGroups::length(),
            *layer1_scale,
            *layer2_scale,
        ),
        r matches Ok(e) ==> {
            let m = P::GroupSize::length();
            let n = P::NumGroups::length();
            let groups = two_layer_groups(sources@.len(), m, n);
            let gates = two_layer_gates(sources@.len(), m, n);
            &&& e.val() == horner(
                fold_groups(vals(sources@), m, groups, layer1_scale.val()),
                layer2_scale.val(),
            )
            &&& old(dr).grew(*final(dr), gates, 2 * gates)
            &&& all_consistent(sources@) ==> e.consistent()
        },
{
    let m = P::GroupSize::len();
    let n = P::NumGroups::len();
    let len = sources.len();
    let ghost s = sources@;
    let ghost x1 = layer1_scale.val();
    let ghost d0 = *dr;
    let ghost c = num_chunks(len as nat, m as nat);
    let ghost rr = two_layer_groups(len as nat, m as nat, n as nat);
    let ghost l1 = *layer1_scale;
    let ghost l2 = *layer2_scale;
    let zero = Element::zero(dr);
    let mut results: Vec<Element> = Vec::new();
    let mut g: usize = 0;
    let mut start: usize = 0;
    proof {
        lemma_num_chunks(len as nat, m as nat, 0);
    }
    while start < len
        invariant
            m == P::GroupSize::length(),
            n == P::NumGroups::length(),
            m > 0,
            len == s.len(),
            s == sources@,
            l1 == *layer1_scale,
            len + m <= usize::MAX,
            start == g * m,
            start < len + m,
            g <= c,
            c == num_chunks(len as nat, m as nat),
            rr == two_layer_groups(len as nat, m as nat, n as nat),
            (g < c) <==> (start < len),
            results@.len() == g,
            forall|i: int|
                0 <= i < g ==> #[trigger] results@[i].val() == horner(
                    chunk_padded(vals(s), m as nat, i as nat),
                    x1,
                ),
            forall|i: int|
                0 <= i < g ==> (#[trigger] results@[i].consistent() <==> group_last_consistent(
                    s,
                    m as nat,
                    i as nat,
                )),
            forall|i: nat| i < g ==> #[trigger] group_fold_ok(s, m as nat, i, l1),
            dr.gates() == d0.gates() + g * (m - 1),
            dr.constraints() == d0.constraints() + 2 * (g * (m - 1)),
            d0.room((len + m + rr) as nat, (2 * (len + m + rr)) as nat),
            zero.val() == 0,
            zero.consistent(),
            x1 == layer1_scale.val(),
        decreases len + m - start,
    {
        let mut chunk: Vec<Element> = Vec::new();
        let mut k: usize = 0;
        while k < m
            invariant
                k <= m,
                start < len,
                len + m <= usize::MAX,
                len == s.len(),
                s == sources@,
                chunk@.len() == k,
                zero.val() == 0,
                zero.consistent(),
                forall|j: int|
                    0 <= j < k ==> #[trigger] chunk@[j] == if start + j < len {
                        s[start + j]
                    } else {
                        zero
                    },
            decreases m - k,
        {
            if start + k < len {
                chunk.push(sources[start + k]);
            } else {
                chunk.push(zero);
            }
            k = k + 1;
        }
        proof {
            assert(vals(chunk@) =~= chunk_padded(vals(s), m as nat, g as nat));
            assert(g * (m - 1) + m <= start + m) by (nonlinear_arith)
                requires
                    start == g * m,
                    m > 0,
            ;
            assert(chunk@.len() > 0);
            assert(chunk@.last() == chunk@[m - 1]);
            assert((g + 1) * m - 1 == start + m - 1) by (nonlinear_arith)
                requires
                    start == g * m,
            ;
            assert(all_consistent(chunk@.drop_last()) <==> forall|i: int|
                g * m <= i < g * m + m - 1 && i < s.len() ==> #[trigger] s[i].consistent()) by {
                if all_consistent(chunk@.drop_last()) {
                    assert forall|i: int| g * m <= i < g * m + m - 1 && i < s.len() implies #[trigger] s[i].consistent() by {
                        assert(chunk@.drop_last()[i - start] == chunk@[i - start]);
                    }
                }
                if forall|i: int| g * m <= i < g * m + m - 1 && i < s.len() ==> #[trigger] s[i].consistent() {
                    assert forall|j: int| 0 <= j < chunk@.drop_last().len() implies #[trigger] chunk@.drop_last()[j].consistent() by {
                        assert(chunk@.drop_last()[j] == chunk@[j]);
                        if start + j < len {
                            assert(s[start + j].consistent());
                        }
                    }
                }
            }
        }
        let folded = match Element::fold(dr, chunk.as_slice(), layer1_scale) {
            Ok(e) => e,
            Err(e) => {
                proof {
                    assert(!group_fold_ok(s, m as nat, g as nat, l1));
                    assert(g < c);
                }
                return Err(e);
            },
        };
        let ghost before = results@;
        results.push(folded);
        proof {
            assert(results@ == before.push(folded));
            assert(group_fold_ok(s, m as nat, g as nat, l1));
            assert((g + 1) * (m - 1) == g * (m - 1) + (m - 1)) by (nonlinear_arith);
            assert((g + 1) * m == start + m) by (nonlinear_arith)
                requires
                    start == g * m,
            ;
            lemma_num_chunks(len as nat, m as nat, (g + 1) as nat);
        }
        g = g + 1;
        start = start + m;
    }
    proof {
        assert(g == c);
        assert(c * (m - 1) <= c * m) by (nonlinear_arith);
    }
    while results.len() < n
        invariant
            m == P::GroupSize::length(),
            n == P::NumGroups::length(),
            m > 0,
            len == s.len(),
            c == num_chunks(len as nat, m as nat),
            rr == two_layer_groups(len as nat, m as nat, n as nat),
            c <= results@.len(),
            results@.len() <= rr,
            forall|i: int|
                0 <= i < results@.len() ==> #[trigger] results@[i].val() == horner(
                    chunk_padded(vals(s), m as nat, i as nat),
                    x1,
                ),
            forall|i: int|
                0 <= i < results@.len() ==> (#[trigger] results@[i].consistent()
                    <==> group_last_consistent(s, m as nat, i as nat)),
            zero.val() == 0,
            zero.consistent(),
        decreases n - results@.len(),
    {
        let ghost i = results@.len();
        proof {
            lemma_num_chunks(len as nat, m as nat, i as nat);
            assert(i * m >= len);
            assert(forall|k: int| 0 <= k < m ==> #[trigger] chunk_padded(vals(s), m as nat, i as nat)[k] == 0) by {
                assert forall|k: int| 0 <= k < m implies #[trigger] chunk_padded(vals(s), m as nat, i as nat)[k] == 0 by {
                    assert(i * m + k >= len);
                }
            }
            lemma_horner_zeros(chunk_padded(vals(s), m as nat, i as nat), x1);
            assert((i + 1) * m - 1 >= len) by (nonlinear_arith)
                requires
                    i * m >= len,
                    m > 0,
            ;
        }
        let ghost before = results@;
        results.push(zero);
        proof {
            assert(results@ == before.push(zero));
        }
    }
    proof {
        assert(results@.len() == rr);
        assert(vals(results@) =~= fold_groups(vals(s), m as nat, rr, x1));
        assert(rr > 0 ==> (all_consistent(results@.drop_last()) <==> forall|gg: nat|
            gg + 1 < rr && gg < c ==> #[trigger] group_last_consistent(s, m as nat, gg))) by {
          if rr > 0 {
            if all_consistent(results@.drop_last()) {
                assert forall|gg: nat| gg + 1 < rr && gg < c implies #[trigger] group_last_consistent(s, m as nat, gg) by {
                    assert(results@.drop_last()[gg as int] == results@[gg as int]);
                    assert(results@.drop_last()[gg as int].consistent());
                    assert(results@[gg as int].consistent());
                }
            }
            if forall|gg: nat| gg + 1 < rr && gg < c ==> #[trigger] group_last_consistent(s, m as nat, gg) {
                assert forall|j: int| 0 <= j < results@.drop_last().len() implies #[trigger] results@.drop_last()[j].consistent() by {
                    assert(results@.drop_last()[j] == results@[j]);
                    if j >= c {
                        lemma_num_chunks(len as nat, m as nat, j as nat);
                        assert((j + 1) * m - 1 >= len) by (nonlinear_arith)
                            requires
                                j * m >= len,
                                m > 0,
                        ;
                    } else {
                        assert(group_last_consistent(s, m as nat, j as nat));
                    }
                }
            }
          }
        }
    }
    proof {
        if all_consistent(s) && rr > 0 {
            let last = (rr - 1) as nat;
            let idx: int = (last + 1) * m - 1;
            assert((last + 1) * m >= 1) by (nonlinear_arith)
                requires
                    m > 0,
            ;
            if idx < s.len() {
                assert(s[idx].consistent());
            }
            assert(group_last_consistent(s, m as nat, last));
            assert(results@.last() == results@[last as int]);
        }
    }
    let r = Element::fold(dr, results.as_slice(), layer2_scale);
    proof {
        if r is Err {
            assert(!two_layer_ok(s, m as nat, n as nat, l1, l2));
        } else {
            assert(forall|gg: nat| gg < c ==> #[trigger] group_fold_ok(s, m as nat, gg, l1));
        }
    }
    r
}

} // verus!

verus! {

/// The product of entries `i` of `a` and `j` of `b`, or zero where either is
/// absent.
pub open spec fn cross_term(a: Seq<nat>, b: Seq<nat>, i: int, j: int) -> nat {
    if 0 <= i < a.len() && 0 <= j < b.len() {
        fmul(a[i], b[j])
    } else {
        0
    }
}

/// The error terms of the group of `n` entries starting at `base`: the
/// cross products of its off-diagonal pairs, in row-major order.
pub open spec fn cross_errors(a: Seq<nat>, b: Seq<nat>, n: nat, base: nat) -> Seq<nat> {
    Seq::new(
        (n * n - n) as nat,
        |k: int| cross_term(a, b, (base + offdiag_pair(n, k as nat).0) as int, (base + offdiag_pair(n, k as nat).1) as int),
    )
}

/// The claimed values of the group of `n` entries starting at `base`: the
/// products on its diagonal.
pub open spec fn cross_diag(a: Seq<nat>, b: Seq<nat>, n: nat, base: nat) -> Seq<nat> {
    Seq::new(n, |i: int| cross_term(a, b, (base + i) as int, (base + i) as int))
}

/// `offdiag_pair` and `offdiag_index` are inverse bijections between the
/// pairs `(i, j)`, `i != j < n`, and the positions `k < n * (n - 1)`.
pub proof fn lemma_offdiag_bijection(n: nat)
    ensures
        forall|i: nat, j: nat|
            i < n && j < n && i != j ==> {
                &&& #[trigger] offdiag_index(n, i, j) < n * (n - 1)
                &&& offdiag_pair(n, offdiag_index(n, i, j)) == (i, j)
            },
        forall|k: nat|
            k < n * (n - 1) ==> {
                let (i, j) = #[trigger] offdiag_pair(n, k);
                &&& i < n && j < n && i != j
                &&& offdiag_index(n, i, j) == k
            },
{
    assert forall|i: nat, j: nat| i < n && j < n && i != j implies {
        &&& #[trigger] offdiag_index(n, i, j) < n * (n - 1)
        &&& offdiag_pair(n, offdiag_index(n, i, j)) == (i, j)
    } by {
        let d = (n - 1) as nat;
        let jj: nat = if j < i { j } else { (j - 1) as nat };
        assert(jj < d);
        let k = i * d + jj;
        assert(k < n * d) by (nonlinear_arith)
            requires
                k == i * d + jj,
                jj < d,
                i < n,
        ;
        vstd::arithmetic::div_mod::lemma_fundamental_div_mod_converse(k as int, d as int, i as int, jj as int);
    }
    assert forall|k: nat| k < n * (n - 1) implies {
        let (i, j) = #[trigger] offdiag_pair(n, k);
        &&& i < n && j < n && i != j
        &&& offdiag_index(n, i, j) == k
    } by {
        if n < 2 {
            assert(n * (n - 1) == 0) by (nonlinear_arith)
                requires
                    n < 2,
            ;
        }
        assert(n >= 2);
        let d = (n - 1) as nat;
        vstd::arithmetic::div_mod::lemma_fundamental_div_mod(k as int, d as int);
        vstd::arithmetic::div_mod::lemma_mod_bound(k as int, d as int);
        let i = k / d;
        let jj = k % d;
        assert(i < n) by (nonlinear_arith)
            requires
                k == d * i + jj,
                k < n * d,
                0 <= jj,
                d > 0,
        ;
    }
}

/// The revdot of entries `i` of `a` and `j` of `b`, or zero where either is
/// absent.
pub open spec fn revdot_term(a: Seq<Seq<nat>>, b: Seq<Seq<nat>>, i: int, j: int) -> nat {
    if 0 <= i < a.len() && 0 <= j < b.len() {
        revdot(a[i], b[j])
    } else {
        0
    }
}

/// The revdot of the zero vector with any vector of its size is zero, on
/// either side.
pub proof fn lemma_revdot_zeros(a: Seq<nat>)
    ensures
        revdot(zeros(a.len()), a) == 0,
        revdot(a, zeros(a.len())) == 0,
{
    let n = a.len();
    let l = Seq::new(n, |k: int| fmul(zeros(n)[k], a[n - 1 - k]));
    let r = Seq::new(n, |k: int| fmul(a[k], zeros(n)[n - 1 - k]));
    assert forall|k: int| 0 <= k < n implies l[k] == 0 && r[k] == 0 by {
        lemma_fmul_zero(a[n - 1 - k]);
        lemma_fmul_zero(a[k]);
    }
    lemma_fsum_zeros(l);
    lemma_fsum_zeros(r);
}

/// Error terms of groups of `Inner` claims `(a[i], b[i])`: for each of the
/// `Outer` groups, the revdots `revdot(a[i], b[j])` of its off-diagonal
/// pairs, absent claims taken as zero polynomials.
fn compute_errors_impl<Outer: Len, Inner: Len>(a: &[Polynomial], b: &[Polynomial]) -> (r: FixedVec<
    FixedVec<Fp, NumErrorTerms<Inner>>,
    Outer,
>)
    requires
        a@.len() == b@.len(),
        sized(a@, size_of(a@)),
        sized(b@, size_of(a@)),
        0 < Inner::length(),
        Outer::length() <= usize::MAX,
        Inner::length() * Inner::length() <= usize::MAX,
        Outer::length() * Inner::length() <= usize::MAX,
        a@.len() <= Outer::length() * Inner::length(),
    ensures
        forall|g: int|
            0 <= g < Outer::length() ==> fp_vals(#[trigger] r@[g]@) == revdot_errors(
                chunk_vectors(poly_coeffs(a@), Inner::length(), g as nat, size_of(a@)),
                chunk_vectors(poly_coeffs(b@), Inner::length(), g as nat, size_of(a@)),
                Inner::length(),
            ),
{
    let ghost nn = Inner::length();
    let ghost sz = size_of(a@);
    proof {
        assert(nn <= nn * nn) by (nonlinear_arith)
            requires
                nn >= 1,
        ;
        assert(nn * nn - nn == nn * (nn - 1)) by (nonlinear_arith);
        lemma_offdiag_bijection(nn);
        if Outer::length() > 0 {
            vstd::arithmetic::mul::lemma_mul_inequality(1, Outer::length() as int, nn as int);
        }
    }
    let n = Inner::len();
    let groups = Outer::len();
    let pairs = off_diagonal_pairs(n);
    let ghost av = poly_coeffs(a@);
    let ghost bv = poly_coeffs(b@);
    let mut out: Vec<FixedVec<Fp, NumErrorTerms<Inner>>> = Vec::new();
    let mut g: usize = 0;
    while g < groups
        invariant
            g <= groups,
            n == nn,
            nn > 0,
            groups == Outer::length(),
            groups * nn <= usize::MAX,
            nn * nn <= usize::MAX,
            NumErrorTerms::<Inner>::length() == nn * nn - nn,
            a@.len() == b@.len(),
            sz == size_of(a@),
            sized(a@, sz),
            sized(b@, sz),
            av == poly_coeffs(a@),
            bv == poly_coeffs(b@),
            pairs@.len() == nn * nn - nn,
            forall|k: int|
                0 <= k < pairs@.len() ==> {
                    let (i, j) = #[trigger] pairs@[k];
                    &&& i < n && j < n && i != j
                    &&& offdiag_index(n as nat, i as nat, j as nat) == k
                },
            forall|i: nat, j: nat|
                i < nn && j < nn && i != j ==> {
                    &&& #[trigger] offdiag_index(nn, i, j) < nn * (nn - 1)
                    &&& offdiag_pair(nn, offdiag_index(nn, i, j)) == (i, j)
                },
            out@.len() == g,
            forall|h: int|
                0 <= h < g ==> fp_vals(#[trigger] out@[h]@) == revdot_errors(
                    chunk_vectors(av, nn, h as nat, sz),
                    chunk_vectors(bv, nn, h as nat, sz),
                    nn,
                ),
        decreases groups - g,
    {
        proof {
            assert(g * nn + nn <= groups * nn) by (nonlinear_arith)
                requires
                    g < groups,
            ;
        }
        let base = g * n;
        let mut terms: Vec<Fp> = Vec::new();
        let mut k: usize = 0;
        while k < pairs.len()
            invariant
                k <= pairs@.len(),
                n == nn,
                nn > 0,
                base == g * nn,
                base + nn <= usize::MAX,
                a@.len() == b@.len(),
                sized(a@, sz),
                sized(b@, sz),
                av == poly_coeffs(a@),
                bv == poly_coeffs(b@),
                forall|kk: int|
                    0 <= kk < pairs@.len() ==> {
                        let (i, j) = #[trigger] pairs@[kk];
                        &&& i < n && j < n && i != j
                        &&& offdiag_index(n as nat, i as nat, j as nat) == kk
                    },
                forall|i: nat, j: nat|
                    i < nn && j < nn && i != j ==> {
                        &&& #[trigger] offdiag_index(nn, i, j) < nn * (nn - 1)
                        &&& offdiag_pair(nn, offdiag_index(nn, i, j)) == (i, j)
                    },
                terms@.len() == k,
                forall|kk: int|
                    0 <= kk < k ==> #[trigger] terms@[kk]@ == revdot_term(
                        av,
                        bv,
                        (base + offdiag_pair(nn, kk as nat).0) as int,
                        (base + offdiag_pair(nn, kk as nat).1) as int,
                    ),
            decreases pairs@.len() - k,
        {
            let (i, j) = pairs[k];
            proof {
                assert(offdiag_pair(nn, k as nat) == (i as nat, j as nat)) by {
                    assert(offdiag_pair(nn, offdiag_index(nn, i as nat, j as nat)) == (i as nat, j as nat));
                }
            }
            let ghost before = terms@;
            if base + i < a.len() && base + j < b.len() {
                proof {
                    assert(a@[base + i].coeffs@.len() == sz);
                    assert(b@[base + j].coeffs@.len() == sz);
                }
                terms.push(a[base + i].revdot(&b[base + j]));
            } else {
                terms.push(Fp::from_u64(0));
            }
            proof {
                assert(terms@ == before.push(terms@[k as int]));
            }
            k = k + 1;
        }
        proof {
            let ca = chunk_vectors(av, nn, g as nat, sz);
            let cb = chunk_vectors(bv, nn, g as nat, sz);
            assert forall|kk: int| 0 <= kk < nn * nn - nn implies #[trigger] fp_vals(terms@)[kk] == revdot_errors(ca, cb, nn)[kk] by {
                lemma_offdiag_bijection(nn);
                assert(nn * nn - nn == nn * (nn - 1)) by (nonlinear_arith);
                let (i, j) = offdiag_pair(nn, kk as nat);
                assert(i < nn && j < nn);
                if base + i < a@.len() && base + j < b@.len() {
                    assert(ca[i as int] == av[base + i]);
                    assert(cb[j as int] == bv[base + j]);
                } else if base + i >= a@.len() {
                    assert(ca[i as int] == zeros(sz));
                    if base + j < b@.len() {
                        assert(cb[j as int] == bv[base + j]);
                        assert(bv[base + j].len() == sz);
                        lemma_revdot_zeros(cb[j as int]);
                    } else {
                        assert(cb[j as int] == zeros(sz));
                        lemma_revdot_zeros(zeros(sz));
                    }
                } else {
                    assert(ca[i as int] == av[base + i]);
                    assert(av[base + i].len() == sz);
                    assert(cb[j as int] == zeros(sz));
                    lemma_revdot_zeros(ca[i as int]);
                }
            }
            assert(fp_vals(terms@) =~= revdot_errors(ca, cb, nn));
        }
        let group = FixedVec::<Fp, NumErrorTerms<Inner>>::new(terms).unwrap();
        out.push(group);
        g = g + 1;
    }
    FixedVec::new(out).unwrap()
}

/// Inner error terms: for each of the `NumGroups` groups of `GroupSize`
/// claims `(a[i], b[i])`, the revdots of its off-diagonal pairs.
pub fn inner_error_terms<P: Parameters>(a: &[Polynomial], b: &[Polynomial]) -> (r: FixedVec<
    FixedVec<Fp, NumErrorTerms<P::GroupSize>>,
    P::NumGroups,
>)
    requires
        a@.len() == b@.len(),
        sized(a@, size_of(a@)),
        sized(b@, size_of(a@)),
        0 < P::GroupSize::length(),
        P::NumGroups::length() <= usize::MAX,
        P::GroupSize::length() * P::GroupSize::length() <= usize::MAX,
        P::NumGroups::length() * P::GroupSize::length() <= usize::MAX,
        a@.len() <= P::NumGroups::length() * P::GroupSize::length(),
    ensures
        forall|g: int|
            0 <= g < P::NumGroups::length() ==> fp_vals(#[trigger] r@[g]@) == revdot_errors(
                chunk_vectors(poly_coeffs(a@), P::GroupSize::length(), g as nat, size_of(a@)),
                chunk_vectors(poly_coeffs(b@), P::GroupSize::length(), g as nat, size_of(a@)),
                P::GroupSize::length(),
            ),
{
    compute_errors_impl::<P::NumGroups, P::GroupSize>(a, b)
}

/// Outer error terms: the revdots of the `NumGroups * (NumGroups - 1)`
/// off-diagonal pairs of the claims `(a[i], b[i])`, absent claims taken as
/// zero polynomials.
pub fn outer_error_terms<P: Parameters>(a: &[Polynomial], b: &[Polynomial]) -> (r: FixedVec<Fp, NumErrorTerms<P::NumGroups>>)
    requires
        a@.len() == b@.len(),
        sized(a@, size_of(a@)),
        sized(b@, size_of(a@)),
        0 < P::NumGroups::length(),
        P::NumGroups::length() * P::NumGroups::length() <= usize::MAX,
        a@.len() <= P::NumGroups::length(),
    ensures
        fp_vals(r@) == revdot_errors(
            chunk_vectors(poly_coeffs(a@), P::NumGroups::length(), 0, size_of(a@)),
            chunk_vectors(poly_coeffs(b@), P::NumGroups::length(), 0, size_of(a@)),
            P::NumGroups::length(),
        ),
{
    proof {
        let n = P::NumGroups::length();
        assert(ConstLen::<1>::length() == 1);
        assert(n <= n * n) by (nonlinear_arith)
            requires
                n >= 1,
        ;
        assert(1 * n == n);
    }
    let groups = compute_errors_impl::<ConstLen<1>, P::NumGroups>(a, b);
    let mut v = groups.into_inner();
    proof {
        assert(v@.len() == 1);
        assert(fp_vals(v@[0]@) == revdot_errors(
            chunk_vectors(poly_coeffs(a@), P::NumGroups::length(), 0, size_of(a@)),
            chunk_vectors(poly_coeffs(b@), P::NumGroups::length(), 0, size_of(a@)),
            P::NumGroups::length(),
        ));
    }
    v.remove(0)
}

} // verus!

verus! {

/// Scaling every entry by `c` scales the Horner evaluation by `c`.
pub proof fn lemma_horner_scale(c: nat, s: Seq<nat>, x: nat)
    ensures
        horner(Seq::new(s.len(), |k: int| fmul(c, s[k])), x) == fmul(c, horner(s, x)),
    decreases s.len(),
{
    let t = Seq::new(s.len(), |k: int| fmul(c, s[k]));
    if s.len() == 0 {
        lemma_fmul_zero(c);
    } else {
        let s1 = s.drop_last();
        assert(t.drop_last() =~= Seq::new(s1.len(), |k: int| fmul(c, s1[k])));
        lemma_horner_scale(c, s1, x);
        let h1 = horner(s1, x);
        crate::field::lemma_fmul_assoc(c, h1, x);
        crate::field::lemma_fmul_distrib(c, fmul(h1, x), s.last());
    }
}

/// Folding a group of claims is sound for products: when the claimed values
/// are the diagonal products `a[i] * b[i]` and the error terms the cross
/// products `a[i] * b[j]` of a group of `n` pairs, the folded claim equals
/// the product of the group of `a` folded by `x` and the group of `b` folded
/// by `y`. With `x = mu^-1` and `y = mu * nu` this is the product of the
/// folds that [`fold_inner`] and [`fold`] compute, and the claim that
/// [`ClaimFolder`] computes in circuit.
pub proof fn lemma_claim_fold_of_products(a: Seq<nat>, b: Seq<nat>, n: nat, g: nat, x: nat, y: nat)
    requires
        n > 0,
    ensures
        claim_fold(cross_errors(a, b, n, g * n), cross_diag(a, b, n, g * n), n, x, y) == fmul(
            horner(chunk_padded(a, n, g), x),
            horner(chunk_padded(b, n, g), y),
        ),
        g == 0 && a.len() == n && b.len() == n ==> claim_fold(
            cross_errors(a, b, n, 0),
            cross_diag(a, b, n, 0),
            n,
            x,
            y,
        ) == fmul(horner(a, x), horner(b, y)),
{
    let base = g * n;
    let errs = cross_errors(a, b, n, base);
    let kys = cross_diag(a, b, n, base);
    let ua = chunk_padded(a, n, g);
    let ub = chunk_padded(b, n, g);
    let hb = horner(ub, y);
    lemma_offdiag_bijection(n);
    assert(n * (n - 1) == n * n - n) by (nonlinear_arith);
    assert forall|i: int| 0 <= i < n implies #[trigger] horner(claim_row(errs, kys, n, i as nat), y) == fmul(
        hb,
        ua[i],
    ) by {
        let row = claim_row(errs, kys, n, i as nat);
        assert forall|j: int| 0 <= j < n implies #[trigger] row[j] == fmul(ua[i], ub[j]) by {
            lemma_fmul_zero(ua[i]);
            lemma_fmul_zero(ub[j]);
            if j != i {
                let k = offdiag_index(n, i as nat, j as nat);
                assert(offdiag_pair(n, k) == (i as nat, j as nat));
                assert(k < n * (n - 1));
                assert(errs[k as int] == cross_term(a, b, base + i, base + j));
            } else {
                assert(kys[i] == cross_term(a, b, base + i, base + i));
            }
        }
        assert(row =~= Seq::new(ub.len(), |k: int| fmul(ua[i], ub[k])));
        lemma_horner_scale(ua[i], ub, y);
        crate::field::lemma_fmul_comm(ua[i], hb);
    }
    assert(Seq::new(n, |i: int| horner(claim_row(errs, kys, n, i as nat), y)) =~= Seq::new(
        ua.len(),
        |k: int| fmul(hb, ua[k]),
    ));
    lemma_horner_scale(hb, ua, x);
    crate::field::lemma_fmul_comm(hb, horner(ua, x));
    if g == 0 && a.len() == n && b.len() == n {
        assert(chunk_padded(a, n, 0) =~= a);
        assert(chunk_padded(b, n, 0) =~= b);
    }
}

/// Within capacity, the two-layer fold of evaluations folds exactly
/// `NumGroups` first-layer results: [`fold_two_layer`] then computes the same
/// Horner evaluation as [`fold_outer`] of [`fold_inner`].
pub proof fn lemma_two_layer_within_capacity(len: nat, m: nat, n: nat)
    requires
        m > 0,
        len <= m * n,
    ensures
        two_layer_groups(len, m, n) == n,
{
    lemma_num_chunks(len, m, n);
    assert(n * m == m * n) by (nonlinear_arith);
}


/// The pointwise sum of two sequences of the same length.
pub open spec fn add_seqs(s: Seq<nat>, t: Seq<nat>) -> Seq<nat> {
    Seq::new(s.len(), |i: int| fadd(s[i], t[i]))
}

/// The sum of the first `t` terms of the reversed dot product of `a` and `b`
/// of length `n`: `sum_{k < t} a[k] * b[n - 1 - k]`.
pub open spec fn partial_revdot(a: Seq<nat>, b: Seq<nat>, n: nat, t: nat) -> nat {
    crate::element::fsum(Seq::new(t, |k: int| fmul(a[k], b[n - 1 - k])))
}

/// The reversed dot product `sum_k a[k] * b[n - 1 - k]` of two coefficient
/// vectors of length `n`: the pairing that revdot claims are about.
pub open spec fn revdot(a: Seq<nat>, b: Seq<nat>) -> nat {
    partial_revdot(a, b, a.len(), a.len())
}

/// Coefficient `k` of each vector of `vs`.
pub open spec fn column(vs: Seq<Seq<nat>>, k: int) -> Seq<nat> {
    Seq::new(vs.len(), |i: int| vs[i][k])
}

/// The Horner fold by `x` of coefficient vectors of length `n`, coefficient
/// by coefficient: the first vector carries the highest power.
pub open spec fn vfold(vs: Seq<Seq<nat>>, n: nat, x: nat) -> Seq<nat> {
    Seq::new(n, |k: int| horner(column(vs, k), x))
}

/// The error terms of `m` claims `(a[i], b[i])`: the pairings of the
/// off-diagonal pairs, in row-major order.
pub open spec fn revdot_errors(a: Seq<Seq<nat>>, b: Seq<Seq<nat>>, m: nat) -> Seq<nat> {
    Seq::new((m * m - m) as nat, |k: int| revdot(a[offdiag_pair(m, k as nat).0 as int], b[offdiag_pair(m, k as nat).1 as int]))
}

/// The claimed values of `m` claims `(a[i], b[i])`: their pairings.
pub open spec fn revdot_diag(a: Seq<Seq<nat>>, b: Seq<Seq<nat>>, m: nat) -> Seq<nat> {
    Seq::new(m, |i: int| revdot(a[i], b[i]))
}

proof fn lemma_fadd_swap(a: nat, b: nat, c: nat, d: nat)
    ensures
        fadd(fadd(a, b), fadd(c, d)) == fadd(fadd(a, c), fadd(b, d)),
{
    crate::field::lemma_fadd_assoc(a, b, fadd(c, d));
    crate::field::lemma_fadd_assoc(b, c, d);
    crate::field::lemma_fadd_comm(b, c);
    crate::field::lemma_fadd_assoc(c, b, d);
    crate::field::lemma_fadd_assoc(a, c, fadd(b, d));
}

/// Horner evaluation is additive in the coefficients.
pub proof fn lemma_horner_add(s: Seq<nat>, t: Seq<nat>, x: nat)
    requires
        s.len() == t.len(),
    ensures
        horner(add_seqs(s, t), x) == fadd(horner(s, x), horner(t, x)),
    decreases s.len(),
{
    if s.len() > 0 {
        let st = add_seqs(s, t);
        assert(st.drop_last() =~= add_seqs(s.drop_last(), t.drop_last()));
        lemma_horner_add(s.drop_last(), t.drop_last(), x);
        let hs = horner(s.drop_last(), x);
        let ht = horner(t.drop_last(), x);
        crate::field::lemma_fmul_comm(fadd(hs, ht), x);
        crate::field::lemma_fmul_distrib(x, hs, ht);
        crate::field::lemma_fmul_comm(hs, x);
        crate::field::lemma_fmul_comm(ht, x);
        lemma_fadd_swap(fmul(hs, x), fmul(ht, x), s.last(), t.last());
    }
}

/// The folded claim is additive in the error terms and claimed values.
pub proof fn lemma_claim_fold_add(e1: Seq<nat>, k1: Seq<nat>, e2: Seq<nat>, k2: Seq<nat>, m: nat, x: nat, y: nat)
    requires
        e1.len() == e2.len(),
        e1.len() == m * m - m,
        k1.len() == m,
        k2.len() == m,
    ensures
        claim_fold(add_seqs(e1, e2), add_seqs(k1, k2), m, x, y) == fadd(
            claim_fold(e1, k1, m, x, y),
            claim_fold(e2, k2, m, x, y),
        ),
{
    let e = add_seqs(e1, e2);
    let k = add_seqs(k1, k2);
    lemma_offdiag_bijection(m);
    assert(m * (m - 1) == m * m - m) by (nonlinear_arith);
    let r1 = Seq::new(m, |i: int| horner(claim_row(e1, k1, m, i as nat), y));
    let r2 = Seq::new(m, |i: int| horner(claim_row(e2, k2, m, i as nat), y));
    assert forall|i: int| 0 <= i < m implies #[trigger] horner(claim_row(e, k, m, i as nat), y) == fadd(r1[i], r2[i]) by {
        assert forall|j: int| 0 <= j < m implies #[trigger] claim_row(e, k, m, i as nat)[j] == add_seqs(
            claim_row(e1, k1, m, i as nat),
            claim_row(e2, k2, m, i as nat),
        )[j] by {
            if j != i {
                assert(offdiag_index(m, i as nat, j as nat) < m * (m - 1));
            }
        }
        assert(claim_row(e, k, m, i as nat) =~= add_seqs(claim_row(e1, k1, m, i as nat), claim_row(e2, k2, m, i as nat)));
        lemma_horner_add(claim_row(e1, k1, m, i as nat), claim_row(e2, k2, m, i as nat), y);
    }
    assert(Seq::new(m, |i: int| horner(claim_row(e, k, m, i as nat), y)) =~= add_seqs(r1, r2));
    lemma_horner_add(r1, r2, x);
}

/// The folded claim of all-zero error terms and claimed values is zero.
proof fn lemma_claim_fold_zero(e: Seq<nat>, k: Seq<nat>, m: nat, x: nat, y: nat)
    requires
        e.len() == m * m - m,
        k.len() == m,
        forall|i: int| 0 <= i < e.len() ==> e[i] == 0,
        forall|i: int| 0 <= i < k.len() ==> k[i] == 0,
    ensures
        claim_fold(e, k, m, x, y) == 0,
{
    lemma_offdiag_bijection(m);
    assert(m * (m - 1) == m * m - m) by (nonlinear_arith);
    let rows = Seq::new(m, |i: int| horner(claim_row(e, k, m, i as nat), y));
    assert forall|i: int| 0 <= i < m implies rows[i] == 0 by {
        let row = claim_row(e, k, m, i as nat);
        assert forall|j: int| 0 <= j < row.len() implies row[j] == 0 by {
            if j != i {
                assert(offdiag_index(m, i as nat, j as nat) < m * (m - 1));
            }
        }
        lemma_horner_zeros(row, y);
    }
    lemma_horner_zeros(rows, x);
}

/// The error terms and claimed values of the first `t` coefficients of `m`
/// claims of length `n`.
spec fn partial_errors(a: Seq<Seq<nat>>, b: Seq<Seq<nat>>, m: nat, n: nat, t: nat) -> Seq<nat> {
    Seq::new(
        (m * m - m) as nat,
        |k: int| partial_revdot(a[offdiag_pair(m, k as nat).0 as int], b[offdiag_pair(m, k as nat).1 as int], n, t),
    )
}

spec fn partial_diag(a: Seq<Seq<nat>>, b: Seq<Seq<nat>>, m: nat, n: nat, t: nat) -> Seq<nat> {
    Seq::new(m, |i: int| partial_revdot(a[i], b[i], n, t))
}

/// The `t`-th coefficient pairs of the claims, as scalar claims: column `t`
/// of `a` against column `n - 1 - t` of `b`.
proof fn lemma_partial_step(a: Seq<Seq<nat>>, b: Seq<Seq<nat>>, m: nat, n: nat, t: nat, x: nat, y: nat)
    requires
        m > 0,
        t < n,
        a.len() == m,
        b.len() == m,
    ensures
        claim_fold(partial_errors(a, b, m, n, t + 1), partial_diag(a, b, m, n, t + 1), m, x, y) == fadd(
            claim_fold(partial_errors(a, b, m, n, t), partial_diag(a, b, m, n, t), m, x, y),
            fmul(horner(column(a, t as int), x), horner(column(b, n - 1 - t), y)),
        ),
{
    let u = column(a, t as int);
    let w = column(b, n - 1 - t);
    let e0 = partial_errors(a, b, m, n, t);
    let k0 = partial_diag(a, b, m, n, t);
    let e1 = cross_errors(u, w, m, 0);
    let k1 = cross_diag(u, w, m, 0);
    lemma_offdiag_bijection(m);
    assert(m * (m - 1) == m * m - m) by (nonlinear_arith);
    // Each partial pairing grows by one product.
    assert forall|p: Seq<nat>, q: Seq<nat>| #[trigger] partial_revdot(p, q, n, t + 1) == fadd(
        partial_revdot(p, q, n, t),
        fmul(p[t as int], q[n - 1 - t]),
    ) by {
        let f = Seq::new((t + 1) as nat, |k: int| fmul(p[k], q[n - 1 - k]));
        assert(f.drop_last() =~= Seq::new(t, |k: int| fmul(p[k], q[n - 1 - k])));
    }
    assert(partial_errors(a, b, m, n, t + 1) =~= add_seqs(e0, e1)) by {
        assert forall|k: int| 0 <= k < m * m - m implies #[trigger] partial_errors(a, b, m, n, t + 1)[k]
            == add_seqs(e0, e1)[k] by {
            let (i, j) = offdiag_pair(m, k as nat);
            assert(i < m && j < m);
            assert(partial_revdot(a[i as int], b[j as int], n, t + 1) == fadd(
                partial_revdot(a[i as int], b[j as int], n, t),
                fmul(a[i as int][t as int], b[j as int][n - 1 - t]),
            ));
        }
    }
    assert(partial_diag(a, b, m, n, t + 1) =~= add_seqs(k0, k1)) by {
        assert forall|i: int| 0 <= i < m implies #[trigger] partial_diag(a, b, m, n, t + 1)[i] == add_seqs(
            k0,
            k1,
        )[i] by {
            assert(partial_revdot(a[i], b[i], n, t + 1) == fadd(
                partial_revdot(a[i], b[i], n, t),
                fmul(a[i][t as int], b[i][n - 1 - t]),
            ));
        }
    }
    lemma_claim_fold_add(e0, k0, e1, k1, m, x, y);
    lemma_claim_fold_of_products(u, w, m, 0, x, y);
}

/// The folded claim of the first `t` coefficients is the sum of the first
/// `t` products of folded coefficients.
proof fn lemma_partial_fold(a: Seq<Seq<nat>>, b: Seq<Seq<nat>>, m: nat, n: nat, t: nat, x: nat, y: nat)
    requires
        m > 0,
        t <= n,
        a.len() == m,
        b.len() == m,
    ensures
        claim_fold(partial_errors(a, b, m, n, t), partial_diag(a, b, m, n, t), m, x, y) == crate::element::fsum(
            Seq::new(n, |k: int| fmul(horner(column(a, k), x), horner(column(b, n - 1 - k), y))).take(t as int),
        ),
    decreases t,
{
    let terms = Seq::new(n, |k: int| fmul(horner(column(a, k), x), horner(column(b, n - 1 - k), y)));
    lemma_offdiag_bijection(m);
    assert(m * (m - 1) == m * m - m) by (nonlinear_arith);
    if t == 0 {
        assert forall|i: int| 0 <= i < partial_errors(a, b, m, n, 0).len() implies #[trigger] partial_errors(
            a,
            b,
            m,
            n,
            0,
        )[i] == 0 by {
            let (p, q) = offdiag_pair(m, i as nat);
            assert(Seq::new(0, |k: int| fmul(a[p as int][k], b[q as int][n - 1 - k])) =~= Seq::<nat>::empty());
        }
        assert forall|i: int| 0 <= i < m implies #[trigger] partial_diag(a, b, m, n, 0)[i] == 0 by {
            assert(Seq::new(0, |k: int| fmul(a[i][k], b[i][n - 1 - k])) =~= Seq::<nat>::empty());
        }
        lemma_claim_fold_zero(partial_errors(a, b, m, n, 0), partial_diag(a, b, m, n, 0), m, x, y);
        assert(terms.take(0) =~= Seq::<nat>::empty());
    } else {
        let s = (t - 1) as nat;
        lemma_partial_fold(a, b, m, n, s, x, y);
        lemma_partial_step(a, b, m, n, s, x, y);
        assert(terms.take(t as int).drop_last() =~= terms.take(s as int));
    }
}

/// A sum of zeros is zero.
proof fn lemma_fsum_zeros(s: Seq<nat>)
    requires
        forall|i: int| 0 <= i < s.len() ==> s[i] == 0,
    ensures
        crate::element::fsum(s) == 0,
    decreases s.len(),
{
    if s.len() > 0 {
        lemma_fsum_zeros(s.drop_last());
        crate::field::lemma_fadd_zero(0);
    }
}

/// Folding revdot claims is sound: for `m` claims `(a[i], b[i])` of
/// coefficient vectors of length `n`, the folded claim computed from their
/// error terms `revdot(a[i], b[j])`, `i != j`, and claimed values
/// `revdot(a[i], b[i])` equals the pairing of the folds: `a` folded by `x`
/// and `b` folded by `y`. With `x = mu^-1` and `y = mu * nu`, this is what
/// [`ClaimFolder`] computes in circuit and [`fold_inner`] and [`fold_outer`]
/// compute coefficient by coefficient.
pub proof fn lemma_revdot_folding(a: Seq<Seq<nat>>, b: Seq<Seq<nat>>, m: nat, n: nat, x: nat, y: nat)
    requires
        a.len() == m,
        b.len() == m,
        forall|i: int| 0 <= i < m ==> (#[trigger] a[i]).len() == n,
        forall|i: int| 0 <= i < m ==> (#[trigger] b[i]).len() == n,
    ensures
        claim_fold(revdot_errors(a, b, m), revdot_diag(a, b, m), m, x, y) == revdot(
            vfold(a, n, x),
            vfold(b, n, y),
        ),
{
    let terms = Seq::new(n, |k: int| fmul(horner(column(a, k), x), horner(column(b, n - 1 - k), y)));
    if m == 0 {
        assert forall|k: int| 0 <= k < n implies #[trigger] terms[k] == 0 by {
            assert(horner(column(a, k), x) == 0);
            assert(horner(column(b, n - 1 - k), y) == 0);
            crate::field::lemma_fmul_zero(0);
        }
        lemma_fsum_zeros(terms);
        assert(claim_fold(revdot_errors(a, b, m), revdot_diag(a, b, m), m, x, y) == 0);
    } else {
        lemma_partial_fold(a, b, m, n, n, x, y);
    }
    lemma_offdiag_bijection(m);
    assert(m * (m - 1) == m * m - m) by (nonlinear_arith);
    assert(terms.take(n as int) =~= terms);
    assert(partial_errors(a, b, m, n, n) =~= revdot_errors(a, b, m)) by {
        assert forall|k: int| 0 <= k < m * m - m implies #[trigger] partial_errors(a, b, m, n, n)[k]
            == revdot_errors(a, b, m)[k] by {
            let (i, j) = offdiag_pair(m, k as nat);
            assert(a[i as int].len() == n);
        }
    }
    assert(partial_diag(a, b, m, n, n) =~= revdot_diag(a, b, m));
    let fa = vfold(a, n, x);
    let fb = vfold(b, n, y);
    assert(Seq::new(n, |k: int| fmul(fa[k], fb[n - 1 - k])) =~= terms);
}

/// Folding revdot claims of polynomials is sound: for claims
/// `(lhs[i], rhs[i])` of polynomials of one size, the folded claim computed
/// from their error terms (what [`outer_error_terms`] gives when
/// `lhs.len()` is the number of groups) and their claimed values
/// `lhs[i].revdot(rhs[i])` by `x` and `y` is the revdot of `lhs` folded by
/// `x` and `rhs` folded by `y` (what [`fold_polys`] gives). With
/// `x = mu^-1` and `y = mu * nu`, the first is what
/// [`ClaimFolder::fold_outer`] computes.
pub proof fn lemma_polynomial_claim_folding(lhs: Seq<Polynomial>, rhs: Seq<Polynomial>, x: nat, y: nat)
    requires
        lhs.len() == rhs.len(),
        sized(lhs, size_of(lhs)),
        sized(rhs, size_of(lhs)),
    ensures
        ({
            let m = lhs.len();
            let sz = size_of(lhs);
            &&& chunk_vectors(poly_coeffs(lhs), m, 0, sz) == poly_coeffs(lhs)
            &&& chunk_vectors(poly_coeffs(rhs), m, 0, sz) == poly_coeffs(rhs)
            &&& claim_fold(
                revdot_errors(poly_coeffs(lhs), poly_coeffs(rhs), m),
                Seq::new(m, |i: int| revdot(coeff_vals(lhs[i].coeffs@), coeff_vals(rhs[i].coeffs@))),
                m,
                x,
                y,
            ) == revdot(vfold(poly_coeffs(lhs), sz, x), vfold(poly_coeffs(rhs), sz, y))
        }),
{
    let m = lhs.len();
    let sz = size_of(lhs);
    let a = poly_coeffs(lhs);
    let b = poly_coeffs(rhs);
    assert forall|i: int| 0 <= i < m implies (#[trigger] a[i]).len() == sz by {
        assert(lhs[i].coeffs@.len() == sz);
    }
    assert forall|i: int| 0 <= i < m implies (#[trigger] b[i]).len() == sz by {
        assert(rhs[i].coeffs@.len() == sz);
    }
    lemma_revdot_folding(a, b, m, sz, x, y);
    assert(revdot_diag(a, b, m) =~= Seq::new(
        m,
        |i: int| revdot(coeff_vals(lhs[i].coeffs@), coeff_vals(rhs[i].coeffs@)),
    ));
    assert(chunk_vectors(a, m, 0, sz) =~= a);
    assert(chunk_vectors(b, m, 0, sz) =~= b);
}

/// Folding evaluations in two layers commutes with evaluating the two-layer
/// fold of the polynomials: for at most `m * n` polynomials `ps` and
/// first-layer folds `inner` of their groups of `m` by `s1` (what
/// [`fold_inner`] gives), the value that [`fold_two_layer`] gives from the
/// values of `ps` at `x` is the value at `x` of the fold of `inner` by `s2`
/// (what [`fold_outer`] gives).
pub proof fn lemma_two_layer_evaluation(
    ps: Seq<Polynomial>,
    inner: Seq<Polynomial>,
    m: nat,
    n: nat,
    x: nat,
    s1: nat,
    s2: nat,
)
    requires
        m > 0,
        ps.len() <= m * n,
        inner.len() == n,
        forall|g: int|
            0 <= g < n ==> #[trigger] inner[g].at(x) == horner(chunk_padded(poly_values(ps, x), m, g as nat), s1),
    ensures
        horner(fold_groups(poly_values(ps, x), m, two_layer_groups(ps.len(), m, n), s1), s2) == horner(
            poly_values(inner, x),
            s2,
        ),
{
    let len = ps.len();
    assert((len + m - 1) / (m as int) <= n) by (nonlinear_arith)
        requires
            m > 0,
            len <= m * n,
    {
        assert(len + m - 1 < m * (n + 1));
        vstd::arithmetic::div_mod::lemma_div_is_ordered((len + m - 1) as int, (m * (n + 1) - 1) as int, m as int);
    }
    assert(two_layer_groups(len, m, n) == n);
    assert(fold_groups(poly_values(ps, x), m, n, s1) =~= poly_values(inner, x));
}

/// The two-layer revdot reduction is sound: for claims `(a[i], b[i])` of
/// coefficient vectors of size `sz`, in `n` groups of `m` (absent claims
/// zero), each group's folded claim (by `x` and `y`), computed from its
/// error terms `revdot(a[i], b[j])` and claimed values `revdot(a[i], b[i])`,
/// is the pairing of the group's folds; and the folded claim of those (by
/// `x2` and `y2`), with the pairings of the folds as error terms, is the
/// pairing of the second-layer folds. What [`ClaimFolder::fold_inner`] and
/// [`ClaimFolder::fold_outer`] check is what [`fold_inner`],
/// [`fold_outer`], [`inner_error_terms`] and [`outer_error_terms`] compute.
pub proof fn lemma_two_layer_reduction(
    a: Seq<Seq<nat>>,
    b: Seq<Seq<nat>>,
    m: nat,
    n: nat,
    sz: nat,
    x: nat,
    y: nat,
    x2: nat,
    y2: nat,
)
    requires
        m > 0,
        n > 0,
        forall|i: int| 0 <= i < a.len() ==> (#[trigger] a[i]).len() == sz,
        forall|i: int| 0 <= i < b.len() ==> (#[trigger] b[i]).len() == sz,
    ensures
        ({
            let fa = Seq::new(n, |g: int| vfold(chunk_vectors(a, m, g as nat, sz), sz, x));
            let fb = Seq::new(n, |g: int| vfold(chunk_vectors(b, m, g as nat, sz), sz, y));
            let collapsed = Seq::new(
                n,
                |g: int|
                    claim_fold(
                        revdot_errors(chunk_vectors(a, m, g as nat, sz), chunk_vectors(b, m, g as nat, sz), m),
                        revdot_diag(chunk_vectors(a, m, g as nat, sz), chunk_vectors(b, m, g as nat, sz), m),
                        m,
                        x,
                        y,
                    ),
            );
            &&& collapsed == revdot_diag(fa, fb, n)
            &&& claim_fold(revdot_errors(fa, fb, n), collapsed, n, x2, y2) == revdot(vfold(fa, sz, x2), vfold(fb, sz, y2))
        }),
{
    let fa = Seq::new(n, |g: int| vfold(chunk_vectors(a, m, g as nat, sz), sz, x));
    let fb = Seq::new(n, |g: int| vfold(chunk_vectors(b, m, g as nat, sz), sz, y));
    let collapsed = Seq::new(
        n,
        |g: int|
            claim_fold(
                revdot_errors(chunk_vectors(a, m, g as nat, sz), chunk_vectors(b, m, g as nat, sz), m),
                revdot_diag(chunk_vectors(a, m, g as nat, sz), chunk_vectors(b, m, g as nat, sz), m),
                m,
                x,
                y,
            ),
    );
    assert forall|g: int| 0 <= g < n implies #[trigger] collapsed[g] == revdot_diag(fa, fb, n)[g] by {
        let ca = chunk_vectors(a, m, g as nat, sz);
        let cb = chunk_vectors(b, m, g as nat, sz);
        assert forall|i: int| 0 <= i < m implies (#[trigger] ca[i]).len() == sz by {
        }
        assert forall|i: int| 0 <= i < m implies (#[trigger] cb[i]).len() == sz by {
        }
        lemma_revdot_folding(ca, cb, m, sz, x, y);
    }
    assert(collapsed =~= revdot_diag(fa, fb, n));
    assert forall|g: int| 0 <= g < n implies (#[trigger] fa[g]).len() == sz by {
    }
    assert forall|g: int| 0 <= g < n implies (#[trigger] fb[g]).len() == sz by {
    }
    lemma_revdot_folding(fa, fb, n, sz, x2, y2);
}

/// Evaluating a fold of polynomials is folding their evaluations: for
/// coefficient vectors of size `n`, the value at `x` of their coefficient
/// by coefficient Horner fold by `s` is the Horner fold by `s` of their
/// values at `x`.
pub proof fn lemma_fold_then_evaluate(vs: Seq<Seq<nat>>, n: nat, s: nat, x: nat)
    requires
        forall|i: int| 0 <= i < vs.len() ==> (#[trigger] vs[i]).len() == n,
    ensures
        peval(vfold(vs, n, s), x) == horner(Seq::new(vs.len(), |i: int| peval(vs[i], x)), s),
    decreases vs.len(),
{
    let evals = Seq::new(vs.len(), |i: int| peval(vs[i], x));
    if vs.len() == 0 {
        assert forall|k: int| 0 <= k < n implies #[trigger] vfold(vs, n, s)[k] == 0 by {
            assert(column(vs, k) =~= Seq::<nat>::empty());
        }
        crate::polynomial::lemma_peval_zeros(Seq::<nat>::empty(), n, x);
        assert(Seq::<nat>::empty() + Seq::new(n, |i: int| 0nat) =~= vfold(vs, n, s));
    } else {
        let prev = vs.drop_last();
        let last = vs.last();
        lemma_fold_then_evaluate(prev, n, s, x);
        let pv = vfold(prev, n, s);
        let scaled = Seq::new(n, |k: int| fmul(s, pv[k]));
        let folded = vfold(vs, n, s);
        assert forall|k: int| 0 <= k < n implies #[trigger] folded[k] == fadd(scaled[k], last[k]) by {
            assert(column(vs, k).drop_last() =~= column(prev, k));
            crate::field::lemma_fmul_comm(s, pv[k]);
        }
        crate::polynomial::lemma_peval_scale(pv, scaled, s, x);
        assert forall|k: int| 0 <= k < n implies #[trigger] scaled[k] < p() by {
        }
        crate::polynomial::lemma_peval_add(scaled, last, folded, x);
        assert(evals.drop_last() =~= Seq::new(prev.len(), |i: int| peval(prev[i], x)));
        crate::field::lemma_fmul_comm(s, peval(pv, x));
    }
}

} // verus!
