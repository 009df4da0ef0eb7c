//! Commitment tracking on the fuse path.
//!
//! Each polynomial that enters the claims is tagged with a key naming the
//! child proof and the component it came from. As polynomials are summed
//! and folded, a [`CommitmentDecomposition`] accumulates the same linear
//! combination of those keys, so that the commitment of the result can be
//! computed from the children's commitments with a small multi-scalar
//! multiplication.

use vstd::prelude::*;

use crate::element::{fsum, horner};
use crate::field::{fadd, fmul, lemma_fp_bounded, Fp};
use crate::fold_revdot::Foldable;
use crate::native::RxComponent;
use crate::polynomial::Polynomial;

verus! {

broadcast use lemma_fp_bounded;

/// Which of the two child proofs a component came from.
#[derive(Clone, Copy, Debug, PartialEq, Eq, Structural)]
pub enum Side {
    Left,
    Right,
}

/// The key of a source polynomial on the fuse path: its child proof and its
/// component.
pub type FoldKey = (Side, RxComponent);

/// How a polynomial decomposes as a linear combination of source
/// polynomials: each term `(key, coefficient)` adds `coefficient` times the
/// source named by `key`; a key may occur more than once.
pub struct CommitmentDecomposition<K> {
    pub terms: Vec<(K, Fp)>,
}

/// The value of the linear combination `terms` when each key `k` stands
/// for `source(k)`.
pub open spec fn resolve<K>(terms: Seq<(K, Fp)>, source: spec_fn(K) -> nat) -> nat
    decreases terms.len(),
{
    if terms.len() == 0 {
        0
    } else {
        fadd(resolve(terms.drop_last(), source), fmul(terms.last().1@, source(terms.last().0)))
    }
}

proof fn lemma_resolve_concat<K>(a: Seq<(K, Fp)>, b: Seq<(K, Fp)>, source: spec_fn(K) -> nat)
    ensures
        resolve(a + b, source) == fadd(resolve(a, source), resolve(b, source)),
    decreases b.len(),
{
    if b.len() == 0 {
        assert(a + b =~= a);
        crate::field::lemma_fadd_zero(resolve(a, source) % crate::field::p());
        crate::field::lemma_fadd_mod(resolve(a, source), 0);
        lemma_resolve_bounded(a, source);
    } else {
        assert((a + b).drop_last() =~= a + b.drop_last());
        lemma_resolve_concat(a, b.drop_last(), source);
        let ra = resolve(a, source);
        let rb = resolve(b.drop_last(), source);
        let t = fmul(b.last().1@, source(b.last().0));
        crate::field::lemma_fadd_assoc(ra, rb, t);
    }
}

proof fn lemma_resolve_bounded<K>(terms: Seq<(K, Fp)>, source: spec_fn(K) -> nat)
    ensures
        resolve(terms, source) < crate::field::p(),
    decreases terms.len(),
{
    if terms.len() > 0 {
        lemma_resolve_bounded(terms.drop_last(), source);
    }
}

/// Scaling every coefficient by `c` scales the value by `c`.
proof fn lemma_resolve_scale<K>(terms: Seq<(K, Fp)>, scaled: Seq<(K, Fp)>, c: nat, source: spec_fn(K) -> nat)
    requires
        scaled.len() == terms.len(),
        forall|i: int| 0 <= i < terms.len() ==> (#[trigger] scaled[i]).0 == terms[i].0 && scaled[i].1@ == fmul(terms[i].1@, c),
    ensures
        resolve(scaled, source) == fmul(resolve(terms, source), c),
    decreases terms.len(),
{
    if terms.len() == 0 {
        crate::field::lemma_fmul_zero(c);
    } else {
        let n = terms.len() - 1;
        lemma_resolve_scale(terms.drop_last(), scaled.drop_last(), c, source);
        let r = resolve(terms.drop_last(), source);
        let k = terms.last().0;
        let v = terms.last().1@;
        assert(scaled.last() == scaled[n]);
        crate::field::lemma_fmul_assoc(v, c, source(k));
        crate::field::lemma_fmul_comm(c, source(k));
        crate::field::lemma_fmul_assoc(v, source(k), c);
        crate::field::lemma_fmul_comm(fadd(r, fmul(v, source(k))), c);
        crate::field::lemma_fmul_distrib(c, r, fmul(v, source(k)));
        crate::field::lemma_fmul_comm(c, r);
        crate::field::lemma_fmul_comm(c, fmul(v, source(k)));
    }
}

impl<K: Copy> CommitmentDecomposition<K> {
    /// The decomposition of a single source polynomial, with coefficient
    /// one.
    pub fn single(key: K) -> (r: CommitmentDecomposition<K>)
        ensures
            r.terms@.len() == 1,
            r.terms@[0].0 == key,
            r.terms@[0].1@ == 1,
    {
        CommitmentDecomposition { terms: vec![(key, Fp::from_u64(1))] }
    }
}

impl<K> Default for CommitmentDecomposition<K> {
    /// The empty decomposition, of the zero polynomial.
    fn default() -> (r: CommitmentDecomposition<K>)
        ensures
            r.terms@.len() == 0,
    {
        CommitmentDecomposition { terms: Vec::new() }
    }
}

/// A source polynomial with the key of its commitment.
pub struct Atom<K> {
    pub key: K,
    pub poly: Polynomial,
}

/// A polynomial with its [`CommitmentDecomposition`].
pub struct TrackedPoly<K> {
    pub poly: Polynomial,
    pub decomp: CommitmentDecomposition<K>,
}

/// Whether the decomposition of `t`, with each key standing for
/// `source(key)`, gives the value of its polynomial at `x`.
pub open spec fn tracks_at<K>(t: &TrackedPoly<K>, source: spec_fn(K) -> nat, x: nat) -> bool {
    resolve(t.decomp.terms@, source) == t.poly.at(x)
}

/// Whether `source` gives every atom's key the value of its polynomial at
/// `x`.
pub open spec fn atoms_at<K>(atoms: Seq<Atom<K>>, source: spec_fn(K) -> nat, x: nat) -> bool {
    forall|i: int| 0 <= i < atoms.len() ==> (#[trigger] atoms[i]).poly.at(x) == source(atoms[i].key)
}

/// The values at `x` of the atoms' polynomials.
pub open spec fn atom_values<K>(atoms: Seq<Atom<K>>, x: nat) -> Seq<nat> {
    atoms.map_values(|a: Atom<K>| a.poly.at(x))
}

impl<K: Copy> TrackedPoly<K> {
    pub fn new(poly: Polynomial, decomp: CommitmentDecomposition<K>) -> (r: TrackedPoly<K>)
        ensures
            r.poly == poly,
            r.decomp == decomp,
    {
        TrackedPoly { poly, decomp }
    }

    /// A source polynomial tracked as itself.
    pub fn single(poly: Polynomial, key: K) -> (r: TrackedPoly<K>)
        ensures
            r.poly == poly,
            r.decomp.terms@.len() == 1,
            r.decomp.terms@[0].0 == key,
            r.decomp.terms@[0].1@ == 1,
            forall|source: spec_fn(K) -> nat, x: nat| poly.at(x) == source(key) ==> #[trigger] tracks_at(&r, source, x),
    {
        let r = TrackedPoly::new(poly, CommitmentDecomposition::single(key));
        proof {
            assert forall|source: spec_fn(K) -> nat, x: nat| r.poly.at(x) == source(key) implies #[trigger] tracks_at(
                &r,
                source,
                x,
            ) by {
                let t = r.decomp.terms@;
                assert(t.drop_last() =~= Seq::<(K, Fp)>::empty());
                assert(t.last().1@ == 1 && t.last().0 == key);
                crate::polynomial::lemma_at_bounded(&r.poly, x);
                crate::field::lemma_fmul_one(source(key));
                crate::field::lemma_fadd_zero(source(key));
                assert(resolve(t.drop_last(), source) == 0);
                assert(fmul(t.last().1@, source(t.last().0)) == source(key));
            }
        }
        r
    }

    /// The sum of the atoms' polynomials, each with coefficient one; there
    /// must be at least one atom.
    pub fn sum(atoms: &[Atom<K>]) -> (r: TrackedPoly<K>)
        requires
            atoms@.len() > 0,
        ensures
            forall|x: nat| #[trigger] r.poly.at(x) == fsum(atom_values(atoms@, x)),
            r.decomp.terms@.len() == atoms@.len(),
            forall|i: int|
                0 <= i < atoms@.len() ==> (#[trigger] r.decomp.terms@[i]).0 == atoms@[i].key && r.decomp.terms@[i].1@ == 1,
            forall|source: spec_fn(K) -> nat, x: nat| atoms_at(atoms@, source, x) ==> #[trigger] tracks_at(&r, source, x),
    {
        let mut poly = Polynomial::new(Vec::new());
        let mut terms: Vec<(K, Fp)> = Vec::new();
        let mut i: usize = 0;
        while i < atoms.len()
            invariant
                i <= atoms@.len(),
                forall|x: nat| #[trigger] poly.at(x) == fsum(atom_values(atoms@.take(i as int), x)),
                terms@.len() == i,
                forall|j: int| 0 <= j < i ==> (#[trigger] terms@[j]).0 == atoms@[j].key && terms@[j].1@ == 1,
                forall|source: spec_fn(K) -> nat, x: nat|
                    #[trigger] atoms_at(atoms@, source, x) ==> resolve(terms@, source) == fsum(
                        atom_values(atoms@.take(i as int), x),
                    ),
            decreases atoms@.len() - i,
        {
            let key = atoms[i].key;
            let ghost before = terms@;
            poly.add_assign(&atoms[i].poly);
            terms.push((key, Fp::from_u64(1)));
            proof {
                assert forall|x: nat| #[trigger] atom_values(atoms@.take(i + 1), x).drop_last() == atom_values(
                    atoms@.take(i as int),
                    x,
                ) by {
                    assert(atom_values(atoms@.take(i + 1), x).drop_last() =~= atom_values(atoms@.take(i as int), x));
                }
                assert(terms@.drop_last() =~= before);
                assert forall|source: spec_fn(K) -> nat, x: nat| #[trigger] atoms_at(atoms@, source, x) implies resolve(
                    terms@,
                    source,
                ) == fsum(atom_values(atoms@.take(i + 1), x)) by {
                    assert(atoms@[i as int].poly.at(x) == source(atoms@[i as int].key));
                    assert(resolve(before, source) == fsum(atom_values(atoms@.take(i as int), x)));
                    assert(terms@.last().1@ == 1);
                    crate::polynomial::lemma_at_bounded(&atoms@[i as int].poly, x);
                    crate::field::lemma_fmul_one(source(key));
                    assert(atom_values(atoms@.take(i + 1), x).drop_last() == atom_values(atoms@.take(i as int), x));
                }
            }
            i = i + 1;
        }
        proof {
            assert(atoms@.take(atoms@.len() as int) =~= atoms@);
        }
        TrackedPoly::new(poly, CommitmentDecomposition { terms })
    }
}

impl<K: Copy> Foldable for TrackedPoly<K> {
    fn zero() -> (r: TrackedPoly<K>)
        ensures
            forall|x: nat| #[trigger] r.poly.at(x) == 0,
            r.decomp.terms@.len() == 0,
    {
        TrackedPoly::new(Polynomial::new(Vec::new()), CommitmentDecomposition::default())
    }

    /// Scales the polynomial and every coefficient of its decomposition;
    /// the decomposition keeps tracking the polynomial.
    fn fold_scale(&mut self, by: &Fp)
        ensures
            forall|x: nat| #[trigger] final(self).poly.at(x) == fmul(old(self).poly.at(x), by@),
            forall|source: spec_fn(K) -> nat| #[trigger] resolve(final(self).decomp.terms@, source) == fmul(
                resolve(old(self).decomp.terms@, source),
                by@,
            ),
            forall|source: spec_fn(K) -> nat, x: nat|
                tracks_at(old(self), source, x) ==> #[trigger] tracks_at(final(self), source, x),
    {
        self.poly.scale(by);
        proof {
            assert forall|x: nat| #[trigger] self.poly.at(x) == fmul(old(self).poly.at(x), by@) by {
                crate::field::lemma_fmul_comm(by@, old(self).poly.at(x));
            }
        }
        let ghost old_terms = self.decomp.terms@;
        let ghost scaled_poly = self.poly;
        let mut scaled: Vec<(K, Fp)> = Vec::new();
        let mut i: usize = 0;
        while i < self.decomp.terms.len()
            invariant
                i <= old_terms.len(),
                self.decomp.terms@ == old_terms,
                self.poly == scaled_poly,
                scaled@.len() == i,
                forall|j: int| 0 <= j < i ==> (#[trigger] scaled@[j]).0 == old_terms[j].0 && scaled@[j].1@ == fmul(
                    old_terms[j].1@,
                    by@,
                ),
            decreases old_terms.len() - i,
        {
            let (k, c) = self.decomp.terms[i];
            scaled.push((k, c.mul(by)));
            i = i + 1;
        }
        self.decomp.terms = scaled;
        proof {
            assert forall|source: spec_fn(K) -> nat| #[trigger] resolve(self.decomp.terms@, source) == fmul(
                resolve(old_terms, source),
                by@,
            ) by {
                lemma_resolve_scale(old_terms, self.decomp.terms@, by@, source);
            }
        }
    }

    /// Adds `other`'s polynomial, and appends its decomposition; where both
    /// decompositions track their polynomials, the sum's does.
    fn fold_add_assign(&mut self, other: &TrackedPoly<K>)
        ensures
            forall|x: nat| #[trigger] final(self).poly.at(x) == fadd(old(self).poly.at(x), other.poly.at(x)),
            final(self).decomp.terms@ == old(self).decomp.terms@ + other.decomp.terms@,
            forall|source: spec_fn(K) -> nat| #[trigger] resolve(final(self).decomp.terms@, source) == fadd(
                resolve(old(self).decomp.terms@, source),
                resolve(other.decomp.terms@, source),
            ),
            forall|source: spec_fn(K) -> nat, x: nat|
                tracks_at(old(self), source, x) && tracks_at(other, source, x) ==> #[trigger] tracks_at(
                    final(self),
                    source,
                    x,
                ),
    {
        self.poly.add_assign(&other.poly);
        let ghost summed = self.poly;
        let ghost before = self.decomp.terms@;
        let mut i: usize = 0;
        while i < other.decomp.terms.len()
            invariant
                i <= other.decomp.terms@.len(),
                self.poly == summed,
                self.decomp.terms@ == before + other.decomp.terms@.take(i as int),
            decreases other.decomp.terms@.len() - i,
        {
            self.decomp.terms.push(other.decomp.terms[i]);
            i = i + 1;
            proof {
                assert(self.decomp.terms@ =~= before + other.decomp.terms@.take(i as int));
            }
        }
        proof {
            assert(other.decomp.terms@.take(other.decomp.terms@.len() as int) =~= other.decomp.terms@);
            assert forall|source: spec_fn(K) -> nat| #[trigger] resolve(self.decomp.terms@, source) == fadd(
                resolve(before, source),
                resolve(other.decomp.terms@, source),
            ) by {
                lemma_resolve_concat(before, other.decomp.terms@, source);
            }
        }
    }
}

/// The values at `x` of tracked polynomials.
pub open spec fn tracked_values<K>(items: Seq<TrackedPoly<K>>, x: nat) -> Seq<nat> {
    items.map_values(|t: TrackedPoly<K>| t.poly.at(x))
}

/// Horner fold of tracked polynomials by `scale_factor`, starting from
/// zero: the first item carries the highest power. Wherever the
/// decompositions of the items give their polynomials' values, so does the
/// decomposition of the result.
pub fn fold<K: Copy>(items: &Vec<TrackedPoly<K>>, scale_factor: &Fp) -> (r: TrackedPoly<K>)
    ensures
        forall|x: nat| #[trigger] r.poly.at(x) == horner(tracked_values(items@, x), scale_factor@),
        forall|source: spec_fn(K) -> nat, x: nat|
            (forall|i: int| 0 <= i < items@.len() ==> tracks_at(#[trigger] &items@[i], source, x)) ==> #[trigger] tracks_at(
                &r,
                source,
                x,
            ),
{
    let mut acc = <TrackedPoly<K> as Foldable>::zero();
    let mut i: usize = 0;
    while i < items.len()
        invariant
            i <= items@.len(),
            forall|x: nat| #[trigger] acc.poly.at(x) == horner(tracked_values(items@.take(i as int), x), scale_factor@),
            forall|source: spec_fn(K) -> nat, x: nat|
                (forall|j: int| 0 <= j < items@.len() ==> tracks_at(#[trigger] &items@[j], source, x)) ==> #[trigger] tracks_at(
                    &acc,
                    source,
                    x,
                ),
        decreases items@.len() - i,
    {
        let ghost before = acc;
        acc.fold_scale(scale_factor);
        let ghost scaled = acc;
        acc.fold_add_assign(&items[i]);
        proof {
            assert forall|x: nat| #[trigger] acc.poly.at(x) == horner(tracked_values(items@.take(i + 1), x), scale_factor@) by {
                assert(tracked_values(items@.take(i + 1), x).drop_last() =~= tracked_values(items@.take(i as int), x));
            }
            assert forall|source: spec_fn(K) -> nat, x: nat|
                (forall|j: int| 0 <= j < items@.len() ==> tracks_at(#[trigger] &items@[j], source, x)) implies #[trigger] tracks_at(
                &acc,
                source,
                x,
            ) by {
                assert(tracks_at(&before, source, x));
                assert(tracks_at(&items@[i as int], source, x));
                assert(resolve(scaled.decomp.terms@, source) == fmul(resolve(before.decomp.terms@, source), scale_factor@));
            }
        }
        i = i + 1;
    }
    proof {
        assert(items@.take(items@.len() as int) =~= items@);
        assert forall|source: spec_fn(K) -> nat| #[trigger] resolve(Seq::<(K, Fp)>::empty(), source) == 0 by {
        }
    }
    acc
}

} // verus!
