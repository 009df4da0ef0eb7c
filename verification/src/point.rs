//! The affine point gadget for the Pallas curve `y^2 = x^3 + 5`, whose base
//! field is the circuit's field.
//!
//! The formulas are the affine ones of a short Weierstrass curve with
//! `a = 0`; divisions are enforced with [`Element::div_nonzero`], so an
//! operation fails where its formula would divide by zero.

use ff::PrimeField;
use pasta_curves::arithmetic::CurveAffine;
use vstd::prelude::*;

use crate::boolean::Boolean;
use crate::element::Element;
use crate::error::{Error, WitnessError};
use crate::field::{fadd, fdiv, fmul, fneg, fsub, lemma_fp_bounded, zeta, Fp};
use crate::simulator::{Coeff, DirectSum, Simulator};

verus! {

broadcast use lemma_fp_bounded;

#[verifier::external_type_specification]
#[verifier::external_body]
pub struct ExEpAffine(pasta_curves::EpAffine);

/// What `CurveAffine::coordinates` of `pasta_curves::EpAffine` gives for a
/// point: its affine coordinates, absent for the identity.
pub uninterp spec fn ep_coordinates(p: pasta_curves::EpAffine) -> Option<(nat, nat)>;

/// What `CurveAffine::from_xy` of `pasta_curves::EpAffine` gives for two
/// coordinates.
pub uninterp spec fn ep_from_xy(x: nat, y: nat) -> Option<pasta_curves::EpAffine>;

/// The curve equation `y^2 = x^3 + 5` of Pallas.
pub open spec fn on_curve(x: nat, y: nat) -> bool {
    fmul(y, y) == fadd(fmul(x, fmul(x, x)), 5)
}

/// The affine coordinates of `p`, absent for the identity.
///
/// Calls `CurveAffine::coordinates`; the contract claims only that the
/// result is the one that [`ep_coordinates`] names.
#[verifier::external_body]
fn coordinates_of(p: &pasta_curves::EpAffine) -> (r: Option<(Fp, Fp)>)
    ensures
        match r {
            Some((x, y)) => ep_coordinates(*p) == Some((x@, y@)),
            None => ep_coordinates(*p) is None,
        },
{
    match Option::<pasta_curves::arithmetic::Coordinates<pasta_curves::EpAffine>>::from(p.coordinates()) {
        Some(c) => Some((Fp { bytes: c.x().to_repr() }, Fp { bytes: c.y().to_repr() })),
        None => None,
    }
}

/// The point with affine coordinates `(x, y)`.
///
/// Calls `CurveAffine::from_xy`, whose source accepts exactly the pairs on
/// the curve and the pair `(0, 0)`, which encodes the identity, and stores
/// the coordinates it was given.
#[verifier::external_body]
fn point_from_xy(x: &Fp, y: &Fp) -> (r: Option<pasta_curves::EpAffine>)
    ensures
        r == ep_from_xy(x@, y@),
        r is Some <==> on_curve(x@, y@) || (x@ == 0 && y@ == 0),
        r matches Some(q) ==> ep_coordinates(q) == if x@ == 0 && y@ == 0 {
            None
        } else {
            Some((x@, y@))
        },
{
    let xf = pasta_curves::Fp::from_repr(x.bytes).unwrap();
    let yf = pasta_curves::Fp::from_repr(y.bytes).unwrap();
    Option::from(pasta_curves::EpAffine::from_xy(xf, yf))
}

/// The slope of the tangent at `(x, y)`: `3 x^2 / 2 y`.
pub open spec fn tangent_slope(x: nat, y: nat) -> nat {
    fdiv(fmul(fmul(x, x), 3), fadd(y, y))
}

/// The slope of the chord from `(x0, y0)` to `(x1, y1)`.
pub open spec fn chord_slope(x0: nat, y0: nat, x1: nat, y1: nat) -> nat {
    fdiv(fsub(y1, y0), fsub(x1, x0))
}

/// The third intersection, reflected, of the line of slope `l` through
/// `(x0, y0)` whose other intersection has abscissa `x1`.
pub open spec fn line_sum(l: nat, x0: nat, y0: nat, x1: nat) -> (nat, nat) {
    let x3 = fsub(fsub(fmul(l, l), x0), x1);
    (x3, fsub(fmul(l, fsub(x0, x3)), y0))
}

/// The affine double of `(x, y)`.
pub open spec fn point_double(x: nat, y: nat) -> (nat, nat) {
    let l = tangent_slope(x, y);
    let x3 = fsub(fmul(l, l), fadd(x, x));
    (x3, fsub(fmul(l, fsub(x, x3)), y))
}

/// The affine sum of `(x0, y0)` and `(x1, y1)`, for `x0 != x1`.
pub open spec fn point_add(x0: nat, y0: nat, x1: nat, y1: nat) -> (nat, nat) {
    line_sum(chord_slope(x0, y0, x1, y1), x0, y0, x1)
}

/// The intermediate abscissa of `double_and_add_incomplete`: that of
/// `(xp, yp) + (xq, yq)`.
pub open spec fn double_add_xr(xp: nat, yp: nat, xq: nat, yq: nat) -> nat {
    point_add(xp, yp, xq, yq).0
}

/// The affine `[2] P + Q`, computed as `(P + Q) + P`, for `P = (xp, yp)` and
/// `Q = (xq, yq)`.
pub open spec fn point_double_add(xp: nat, yp: nat, xq: nat, yq: nat) -> (nat, nat) {
    let l1 = chord_slope(xp, yp, xq, yq);
    let xr = double_add_xr(xp, yp, xq, yq);
    let l2 = fsub(fdiv(fadd(yp, yp), fsub(xp, xr)), l1);
    let xs = fsub(fsub(fmul(l2, l2), xr), xp);
    (xs, fsub(fmul(l2, fsub(xp, xs)), yp))
}

/// An affine point on Pallas, as two coordinate elements.
#[derive(Clone, Copy, Debug)]
pub struct Point {
    x: Element,
    y: Element,
}

impl Point {
    /// The abscissa.
    pub closed spec fn xv(&self) -> nat {
        self.x.val()
    }

    /// The ordinate.
    pub closed spec fn yv(&self) -> nat {
        self.y.val()
    }

    /// Whether both coordinates carry their values.
    pub closed spec fn consistent(&self) -> bool {
        self.x.consistent() && self.y.consistent()
    }

    /// A point from two coordinates, without checking the curve equation.
    fn new_unchecked(x: Element, y: Element) -> (r: Point)
        ensures
            r.x == x,
            r.y == y,
    {
        Point { x, y }
    }

    /// Allocates the point with the given affine coordinates, if any, and
    /// enforces the curve equation: three gates and five constraints.
    pub fn allocate_coordinates(dr: &mut Simulator, coordinates: Option<(Fp, Fp)>) -> (r: Result<Point, Error>)
        requires
            old(dr).room(3, 5),
        ensures
            r is Ok <==> (coordinates matches Some((x, y)) && on_curve(x@, y@)),
            coordinates is None ==> r == Err::<Point, Error>(
                Error::InvalidWitness(WitnessError::PointAtInfinity),
            ),
            r matches Ok(q) ==> {
                &&& coordinates matches Some((x, y)) && q.xv() == x@ && q.yv() == y@
                &&& q.consistent()
                &&& old(dr).grew(*final(dr), 3, 5)
            },
    {
        let (cx, cy) = match coordinates {
            Some(c) => c,
            None => return Err(Error::InvalidWitness(WitnessError::PointAtInfinity)),
        };
        let (x, x2) = Element::alloc_square(dr, cx)?;
        let x3 = x.mul(dr, &x2)?;
        let (y, y2) = Element::alloc_square(dr, cy)?;
        let lc = DirectSum::new().add(&x3.wire()).add_term(&Simulator::one(), Coeff::Arbitrary(Fp::from_u64(5))).sub(
            &y2.wire(),
        );
        proof {
            let a = fmul(cx@, fmul(cx@, cx@));
            let b = fmul(cy@, cy@);
            crate::field::lemma_fmul_one(a);
            crate::field::lemma_fmul_one(b);
            crate::field::lemma_fmul_one(5);
            crate::field::lemma_fmul_one(fmul(1, 5));
            crate::field::lemma_fadd_zero(a);
            crate::field::lemma_fsub_zero_iff(fadd(a, 5), b);
        }
        dr.enforce_zero(lc)?;
        Ok(Point::new_unchecked(x, y))
    }

    /// Allocates the point `p`, which must not be the identity.
    pub fn allocate(dr: &mut Simulator, p: &pasta_curves::EpAffine) -> (r: Result<Point, Error>)
        requires
            old(dr).room(3, 5),
        ensures
            r is Ok <==> (ep_coordinates(*p) matches Some((x, y)) && on_curve(x, y)),
            ep_coordinates(*p) is None ==> r == Err::<Point, Error>(
                Error::InvalidWitness(WitnessError::PointAtInfinity),
            ),
            r matches Ok(q) ==> {
                &&& ep_coordinates(*p) == Some((q.xv(), q.yv()))
                &&& q.consistent()
                &&& old(dr).grew(*final(dr), 3, 5)
            },
    {
        let coordinates = coordinates_of(p);
        Point::allocate_coordinates(dr, coordinates)
    }

    /// The constant point with the given affine coordinates, if any.
    pub fn constant_coordinates(dr: &mut Simulator, coordinates: Option<(Fp, Fp)>) -> (r: Result<Point, Error>)
        ensures
            r is Ok <==> coordinates is Some,
            r matches Err(e) ==> e == Error::InvalidWitness(WitnessError::PointAtInfinity),
            r matches Ok(q) ==> {
                &&& coordinates matches Some((x, y)) && q.xv() == x@ && q.yv() == y@
                &&& q.consistent()
                &&& *final(dr) == *old(dr)
            },
    {
        match coordinates {
            Some((cx, cy)) => {
                let x = Element::constant(dr, cx);
                let y = Element::constant(dr, cy);
                Ok(Point::new_unchecked(x, y))
            },
            None => Err(Error::InvalidWitness(WitnessError::PointAtInfinity)),
        }
    }

    /// The constant point `p`, which must not be the identity.
    pub fn constant(dr: &mut Simulator, p: &pasta_curves::EpAffine) -> (r: Result<Point, Error>)
        ensures
            r is Ok <==> ep_coordinates(*p) is Some,
            r matches Err(e) ==> e == Error::InvalidWitness(WitnessError::PointAtInfinity),
            r matches Ok(q) ==> {
                &&& ep_coordinates(*p) == Some((q.xv(), q.yv()))
                &&& q.consistent()
                &&& *final(dr) == *old(dr)
            },
    {
        let coordinates = coordinates_of(p);
        Point::constant_coordinates(dr, coordinates)
    }

    /// The curve point this gadget holds, whose coordinates must satisfy the
    /// curve equation.
    pub fn value(&self) -> (r: pasta_curves::EpAffine)
        requires
            on_curve(self.xv(), self.yv()),
        ensures
            ep_from_xy(self.xv(), self.yv()) == Some(r),
            !(self.xv() == 0 && self.yv() == 0) ==> ep_coordinates(r) == Some((self.xv(), self.yv())),
    {
        point_from_xy(&self.x.value(), &self.y.value()).unwrap()
    }

    /// Applies the endomorphism `(x, y) -> (zeta * x, y)`.
    pub fn endo(&self, dr: &mut Simulator) -> (r: Point)
        ensures
            r.xv() == fmul(self.xv(), zeta()),
            r.yv() == self.yv(),
            self.consistent() ==> r.consistent(),
            *final(dr) == *old(dr),
    {
        let x = self.x.scale(dr, Coeff::Arbitrary(Fp::zeta()));
        Point::new_unchecked(x, self.y)
    }

    /// Negates this point: `(x, y) -> (x, -y)`.
    pub fn negate(&self, dr: &mut Simulator) -> (r: Point)
        ensures
            r.xv() == self.xv(),
            r.yv() == fneg(self.yv()),
            self.consistent() ==> r.consistent(),
            *final(dr) == *old(dr),
    {
        Point { x: self.x, y: self.y.negate(dr) }
    }

    /// Applies the endomorphism if `condition` holds, at the cost of one
    /// gate.
    pub fn conditional_endo(&self, dr: &mut Simulator, condition: &Boolean) -> (r: Result<Point, Error>)
        requires
            old(dr).room(1, 2),
        ensures
            self.consistent() && condition.consistent() ==> r is Ok,
            r matches Ok(q) ==> {
                &&& q.xv() == if condition.val() { fmul(self.xv(), zeta()) } else { self.xv() }
                &&& q.yv() == self.yv()
                &&& self.consistent() ==> q.consistent()
                &&& old(dr).grew(*final(dr), 1, 2)
            },
    {
        let endo_x = self.x.scale(dr, Coeff::Arbitrary(Fp::zeta()));
        let x = condition.conditional_select(dr, &self.x, &endo_x)?;
        Ok(Point::new_unchecked(x, self.y))
    }

    /// Negates this point if `condition` holds, at the cost of one gate.
    pub fn conditional_negate(&self, dr: &mut Simulator, condition: &Boolean) -> (r: Result<Point, Error>)
        requires
            old(dr).room(1, 2),
        ensures
            self.consistent() && condition.consistent() ==> r is Ok,
            r matches Ok(q) ==> {
                &&& q.xv() == self.xv()
                &&& q.yv() == if condition.val() { fneg(self.yv()) } else { self.yv() }
                &&& self.consistent() ==> q.consistent()
                &&& old(dr).grew(*final(dr), 1, 2)
            },
    {
        let neg_y = self.y.negate(dr);
        let y = condition.conditional_select(dr, &self.y, &neg_y)?;
        Ok(Point::new_unchecked(self.x, y))
    }

    /// Doubles this point; the ordinate must be nonzero. Four gates and
    /// eight constraints.
    pub fn double(&self, dr: &mut Simulator) -> (r: Result<Point, Error>)
        requires
            old(dr).room(4, 8),
        ensures
            self.consistent() ==> (r is Ok <==> fadd(self.yv(), self.yv()) != 0),
            r matches Ok(q) ==> {
                &&& (q.xv(), q.yv()) == point_double(self.xv(), self.yv())
                &&& self.consistent() ==> q.consistent()
                &&& old(dr).grew(*final(dr), 4, 8)
            },
    {
        let double_y = self.y.double(dr);
        let x_sq = self.x.square(dr)?;
        let three_x_sq = x_sq.scale(dr, Coeff::Arbitrary(Fp::from_u64(3)));
        let delta = three_x_sq.div_nonzero(dr, &double_y)?;
        let double_x = self.x.double(dr);
        let x3 = delta.square(dr)?.sub(dr, &double_x);
        let x_sub_x3 = self.x.sub(dr, &x3);
        let y3 = delta.mul(dr, &x_sub_x3)?.sub(dr, &self.y);
        Ok(Point::new_unchecked(x3, y3))
    }

    /// Adds `other`, whose abscissa must differ from this point's. Three
    /// gates and six constraints.
    pub fn add_incomplete(&self, dr: &mut Simulator, other: &Point) -> (r: Result<Point, Error>)
        requires
            old(dr).room(3, 6),
        ensures
            self.consistent() && other.consistent() ==> (r is Ok <==> self.xv() != other.xv()),
            r matches Ok(q) ==> {
                &&& (q.xv(), q.yv()) == point_add(self.xv(), self.yv(), other.xv(), other.yv())
                &&& self.consistent() && other.consistent() ==> q.consistent()
                &&& old(dr).grew(*final(dr), 3, 6)
            },
    {
        let tmp = other.x.sub(dr, &self.x);
        proof {
            self.x.lemma_bounded();
            other.x.lemma_bounded();
            crate::field::lemma_fsub_zero_iff(other.xv(), self.xv());
        }
        let delta = other.y.sub(dr, &self.y).div_nonzero(dr, &tmp)?;
        let x3 = delta.square(dr)?.sub(dr, &self.x).sub(dr, &other.x);
        let tmp2 = self.x.sub(dr, &x3);
        let y3 = delta.mul(dr, &tmp2)?.sub(dr, &self.y);
        Ok(Point { x: x3, y: y3 })
    }

    /// Adds `other` like [`Point::add_incomplete`], and multiplies
    /// `nonzero` by the difference of the abscissas, so that inverting
    /// `nonzero` after a batch of additions certifies that all of them had
    /// distinct abscissas. Four gates and eight constraints.
    pub fn add_incomplete_tracked(&self, dr: &mut Simulator, other: &Point, nonzero: &mut Element) -> (r: Result<
        Point,
        Error,
    >)
        requires
            old(dr).room(4, 8),
        ensures
            self.consistent() && other.consistent() && old(nonzero).consistent() ==> (r is Ok
                <==> self.xv() != other.xv()),
            r matches Ok(q) ==> {
                &&& (q.xv(), q.yv()) == point_add(self.xv(), self.yv(), other.xv(), other.yv())
                &&& self.consistent() && other.consistent() ==> q.consistent()
                &&& final(nonzero).val() == fmul(old(nonzero).val(), fsub(other.xv(), self.xv()))
                &&& final(nonzero).consistent()
                &&& old(dr).grew(*final(dr), 4, 8)
            },
    {
        let tmp = other.x.sub(dr, &self.x);
        proof {
            self.x.lemma_bounded();
            other.x.lemma_bounded();
            crate::field::lemma_fsub_zero_iff(other.xv(), self.xv());
        }
        *nonzero = nonzero.mul(dr, &tmp)?;
        let delta = other.y.sub(dr, &self.y).div_nonzero(dr, &tmp)?;
        let x3 = delta.square(dr)?.sub(dr, &self.x).sub(dr, &other.x);
        let tmp2 = self.x.sub(dr, &x3);
        let y3 = delta.mul(dr, &tmp2)?.sub(dr, &self.y);
        Ok(Point { x: x3, y: y3 })
    }

    /// Computes `[2] self + other`. The abscissas of `self` and `other` must
    /// differ, and so must those of `self` and `self + other`. Five gates
    /// and ten constraints.
    pub fn double_and_add_incomplete(&self, dr: &mut Simulator, other: &Point) -> (r: Result<Point, Error>)
        requires
            old(dr).room(5, 10),
        ensures
            self.consistent() && other.consistent() ==> (r is Ok <==> (self.xv() != other.xv()
                && self.xv() != double_add_xr(self.xv(), self.yv(), other.xv(), other.yv()))),
            r matches Ok(q) ==> {
                &&& (q.xv(), q.yv()) == point_double_add(self.xv(), self.yv(), other.xv(), other.yv())
                &&& self.consistent() && other.consistent() ==> q.consistent()
                &&& old(dr).grew(*final(dr), 5, 10)
            },
    {
        let tmp = other.x.sub(dr, &self.x);
        proof {
            self.x.lemma_bounded();
            other.x.lemma_bounded();
            crate::field::lemma_fsub_zero_iff(other.xv(), self.xv());
        }
        let lambda_1 = other.y.sub(dr, &self.y).div_nonzero(dr, &tmp)?;
        let x_r = lambda_1.square(dr)?.sub(dr, &self.x).sub(dr, &other.x);
        let tmp2 = self.x.sub(dr, &x_r);
        proof {
            x_r.lemma_bounded();
            crate::field::lemma_fsub_zero_iff(self.xv(), x_r.val());
        }
        let lambda_2 = self.y.double(dr).div_nonzero(dr, &tmp2)?.sub(dr, &lambda_1);
        let x_s = lambda_2.square(dr)?.sub(dr, &x_r).sub(dr, &self.x);
        let tmp3 = self.x.sub(dr, &x_s);
        let y_s = lambda_2.mul(dr, &tmp3)?.sub(dr, &self.y);
        Ok(Point { x: x_s, y: y_s })
    }

    /// Enforces that both coordinates of `other` equal those of this point:
    /// two constraints.
    pub fn enforce_equal(&self, dr: &mut Simulator, other: &Point) -> (r: Result<(), Error>)
        requires
            old(dr).room(0, 2),
        ensures
            self.consistent() && other.consistent() ==> (r is Ok <==> self.xv() == other.xv()
                && self.yv() == other.yv()),
            r is Ok ==> old(dr).grew(*final(dr), 0, 2),
    {
        dr.enforce_equal(&self.x.wire(), &other.x.wire())?;
        dr.enforce_equal(&self.y.wire(), &other.y.wire())
    }

    /// Enforces that this point lies on the curve, by allocating the point
    /// its values describe and equating the two: three gates and seven
    /// constraints.
    pub fn enforce_consistent(&self, dr: &mut Simulator) -> (r: Result<(), Error>)
        requires
            on_curve(self.xv(), self.yv()),
            old(dr).room(3, 7),
        ensures
            self.consistent() && !(self.xv() == 0 && self.yv() == 0) ==> r is Ok,
            r is Ok ==> old(dr).grew(*final(dr), 3, 7),
    {
        let q = self.value();
        let allocated = Point::allocate(dr, &q)?;
        allocated.enforce_equal(dr, self)
    }
}

} // verus!
