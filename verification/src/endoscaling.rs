//! Step-wise endoscaling: iterated endoscalar multiplications by Horner's
//! rule, split into steps of at most four endoscalings each.
//!
//! The points are an `initial` accumulator, `NUM_POINTS - 1` `inputs`, and
//! one `interstitial` output per step. Step `k` starts from
//! `interstitials[k - 1]` (or `initial` for step zero), scales and adds
//! `inputs[4 k .. 4 (k + 1)]` (clamped to the inputs), and constrains the
//! result to equal `interstitials[k]`.

use pasta_curves::group::ff::PrimeField;
use vstd::prelude::*;

use crate::element::Element;
use crate::endoscalar::{scale_acc, scale_ok, Endoscalar, ENDOSCALAR_BITS};
use crate::error::Error;
use crate::field::{fmul, fsub};
use crate::point::{ep_coordinates, on_curve, point_add, Point};
use crate::scalar::{lift_to_scalar, qlift_value, Fq};
use crate::simulator::Simulator;
use crate::vec::{FixedVec, Len};

verus! {

/// The number of endoscalings per step: how many fit into one circuit of the
/// target size.
pub const ENDOSCALINGS_PER_STEP: usize = 4;

/// The number of steps for `n` points (`n > 0`): the inputs `n - 1` divided
/// by four, rounded up, and at least one.
pub open spec fn num_steps_spec(n: nat) -> nat {
    let steps = ((n - 1) + 3) / 4;
    if steps > 1 {
        steps as nat
    } else {
        1
    }
}

/// The number of inputs, excluding the initial point, for `NUM_POINTS`
/// points.
pub struct InputsLen<const NUM_POINTS: usize>;

impl<const NUM_POINTS: usize> Len for InputsLen<NUM_POINTS> {
    open spec fn length() -> nat {
        if NUM_POINTS > 0 {
            (NUM_POINTS - 1) as nat
        } else {
            0
        }
    }

    fn len() -> (r: usize) {
        if NUM_POINTS > 0 {
            NUM_POINTS - 1
        } else {
            0
        }
    }
}

/// The number of endoscaling steps for `num_points` curve points:
/// `ceil((num_points - 1) / 4)`, and at least one.
pub fn num_steps(num_points: usize) -> (r: usize)
    requires
        num_points > 0,
    ensures
        r == num_steps_spec(num_points as nat),
{
    let inputs = num_points - 1;
    let steps = inputs / ENDOSCALINGS_PER_STEP + if inputs % ENDOSCALINGS_PER_STEP == 0 {
        0
    } else {
        1
    };
    proof {
        assert(steps == (inputs + 3) / 4);
    }
    if steps > 1 {
        steps
    } else {
        1
    }
}

/// The number of steps, which is the number of interstitials, for
/// `NUM_POINTS` points.
pub struct NumStepsLen<const NUM_POINTS: usize>;

impl<const NUM_POINTS: usize> Len for NumStepsLen<NUM_POINTS> {
    open spec fn length() -> nat {
        if NUM_POINTS > 0 {
            num_steps_spec(NUM_POINTS as nat)
        } else {
            1
        }
    }

    fn len() -> (r: usize) {
        if NUM_POINTS > 0 {
            num_steps(NUM_POINTS)
        } else {
            1
        }
    }
}

/// The stage that allocates the endoscalar witness.
pub struct EndoscalarStage;

impl EndoscalarStage {
    /// The number of values the stage allocates: one per endoscalar bit.
    pub fn values() -> (r: usize)
        ensures
            r == ENDOSCALAR_BITS,
    {
        ENDOSCALAR_BITS
    }

    /// Allocates the endoscalar `witness`.
    pub fn witness(&self, dr: &mut Simulator, witness: u128) -> (r: Result<Endoscalar, Error>)
        requires
            old(dr).room(128, 256),
        ensures
            r matches Ok(e) && {
                &&& e.val() == witness
                &&& e.consistent()
                &&& old(dr).grew(*final(dr), 128, 256)
            },
    {
        Endoscalar::allocate(dr, witness)
    }
}

/// The points of an endoscaling: the initial accumulator, the inputs and
/// one interstitial output per step.
pub struct Points<const NUM_POINTS: usize> {
    pub initial: Point,
    pub inputs: FixedVec<Point, InputsLen<NUM_POINTS>>,
    pub interstitials: FixedVec<Point, NumStepsLen<NUM_POINTS>>,
}

/// A step of the endoscaling of `NUM_POINTS` points.
pub struct EndoscalingStep<const NUM_POINTS: usize> {
    step: usize,
}

impl<const NUM_POINTS: usize> EndoscalingStep<NUM_POINTS> {
    #[verifier::type_invariant]
    spec fn valid_step(self) -> bool {
        NUM_POINTS > 0 && self.step < num_steps_spec(NUM_POINTS as nat)
    }

    /// The index of this step.
    pub closed spec fn index(&self) -> nat {
        self.step as nat
    }

    /// Creates step `step`, which must be below the number of steps.
    pub fn new(step: usize) -> (r: EndoscalingStep<NUM_POINTS>)
        requires
            NUM_POINTS > 0,
            step < num_steps_spec(NUM_POINTS as nat),
        ensures
            r.index() == step,
    {
        EndoscalingStep { step }
    }

    /// The range of inputs that this step scales and adds:
    /// `4 k .. min(4 k + 4, NUM_POINTS - 1)` for step `k`.
    pub fn input_range(&self) -> (r: core::ops::Range<usize>)
        ensures
            r.start == 4 * self.index(),
            r.end == if 4 * self.index() + 4 < NUM_POINTS - 1 {
                4 * self.index() + 4
            } else {
                (NUM_POINTS - 1) as nat
            },
            r.start <= r.end,
    {
        proof {
            use_type_invariant(self);
        }
        let inputs = InputsLen::<NUM_POINTS>::len();
        let start = self.step * ENDOSCALINGS_PER_STEP;
        let end = if inputs - start < ENDOSCALINGS_PER_STEP {
            inputs
        } else {
            start + ENDOSCALINGS_PER_STEP
        };
        start..end
    }
}


/// The coordinates of a sequence of points.
pub open spec fn coords(s: Seq<Point>) -> Seq<(nat, nat)> {
    s.map_values(|q: Point| (q.xv(), q.yv()))
}

/// Whether every point of `s` carries its coordinates on its wires.
pub open spec fn all_points_consistent(s: Seq<Point>) -> bool {
    forall|i: int| 0 <= i < s.len() ==> #[trigger] s[i].consistent()
}

/// One Horner step: `acc` scaled by the endoscalar `v`, plus `input`.
#[verifier::opaque]
pub open spec fn step_next(v: u128, acc: (nat, nat), input: (nat, nat)) -> (nat, nat) {
    let s = scale_acc(v, acc.0, acc.1, 64);
    point_add(s.0, s.1, input.0, input.1)
}

/// The accumulator of a step after its first `k` inputs: starting from
/// `start`, each input in turn is added to the accumulator scaled by the
/// endoscalar `v`.
pub open spec fn step_acc(v: u128, start: (nat, nat), inputs: Seq<(nat, nat)>, k: nat) -> (nat, nat)
    decreases k,
{
    if k == 0 {
        start
    } else {
        step_next(v, step_acc(v, start, inputs, (k - 1) as nat), inputs[k - 1])
    }
}

/// Whether the first `k` scalings and additions of a step meet no
/// exceptional case.
pub open spec fn step_ok(v: u128, start: (nat, nat), inputs: Seq<(nat, nat)>, k: nat) -> bool
    decreases k,
{
    if k == 0 {
        true
    } else {
        let a = step_acc(v, start, inputs, (k - 1) as nat);
        let s = scale_acc(v, a.0, a.1, 64);
        &&& step_ok(v, start, inputs, (k - 1) as nat)
        &&& scale_ok(v, a.0, a.1, 64)
        &&& s.0 != inputs[k - 1].0
    }
}

/// The product of the abscissa differences of the first `k` additions of a
/// step, which the step inverts to certify that they were all nonzero.
pub open spec fn step_nonzero(v: u128, start: (nat, nat), inputs: Seq<(nat, nat)>, k: nat) -> nat
    decreases k,
{
    if k == 0 {
        1
    } else {
        let a = step_acc(v, start, inputs, (k - 1) as nat);
        let s = scale_acc(v, a.0, a.1, 64);
        fmul(step_nonzero(v, start, inputs, (k - 1) as nat), fsub(inputs[k - 1].0, s.0))
    }
}

proof fn lemma_step_ok_prefix(v: u128, start: (nat, nat), inputs: Seq<(nat, nat)>, j: nat, k: nat)
    requires
        j <= k,
        step_ok(v, start, inputs, k),
    ensures
        step_ok(v, start, inputs, j),
    decreases k - j,
{
    if j < k {
        lemma_step_ok_prefix(v, start, inputs, j, (k - 1) as nat);
    }
}

/// One iteration of a step: scales `acc` by `endoscalar`, adds `input`,
/// and multiplies `nonzero` by the difference of the abscissas. 459 gates
/// and 918 constraints.
fn scale_and_add(
    dr: &mut Simulator,
    endoscalar: &Endoscalar,
    acc: &Point,
    input: &Point,
    nonzero: &mut Element,
) -> (r: Result<Point, Error>)
    requires
        old(dr).room(459, 918),
    ensures
        ({
            let v = endoscalar.val();
            let s = scale_acc(v, acc.xv(), acc.yv(), 64);
            let good = endoscalar.consistent() && acc.consistent() && input.consistent() && old(
                nonzero,
            ).consistent();
            &&& good ==> (r is Ok <==> scale_ok(v, acc.xv(), acc.yv(), 64) && s.0 != input.xv())
            &&& r matches Ok(q) ==> {
                &&& good ==> {
                    &&& (q.xv(), q.yv()) == point_add(s.0, s.1, input.xv(), input.yv())
                    &&& q.consistent()
                    &&& final(nonzero).val() == fmul(old(nonzero).val(), fsub(input.xv(), s.0))
                    &&& final(nonzero).consistent()
                }
                &&& old(dr).grew(*final(dr), 459, 918)
            }
        }),
{
    let scaled = endoscalar.group_scale(dr, acc)?;
    scaled.add_incomplete_tracked(dr, input, nonzero)
}

impl<const NUM_POINTS: usize> EndoscalingStep<NUM_POINTS> {
    /// The point this step starts from: the initial point for step zero,
    /// and the previous step's interstitial otherwise.
    pub open spec fn start_point(&self, points: &Points<NUM_POINTS>) -> Point {
        if self.index() == 0 {
            points.initial
        } else {
            points.interstitials@[self.index() - 1]
        }
    }

    /// The coordinates of the inputs this step scales and adds.
    pub open spec fn step_inputs(&self, points: &Points<NUM_POINTS>) -> Seq<(nat, nat)> {
        let start = 4 * self.index();
        let end = if 4 * self.index() + 4 < NUM_POINTS - 1 {
            4 * self.index() + 4
        } else {
            (NUM_POINTS - 1) as nat
        };
        coords(points.inputs@).subrange(start as int, end as int)
    }

    /// Constrains the step: from its start point, each input in its range
    /// is added to the accumulator scaled by `endoscalar`; the product of
    /// the abscissa differences is inverted, which certifies that none was
    /// zero; and the result must equal this step's interstitial. With no
    /// inputs in its range (a single point), only that equality with the
    /// start point is constrained. Per input 459 gates and 918
    /// constraints, and one gate and four constraints more.
    pub fn witness(&self, dr: &mut Simulator, endoscalar: &Endoscalar, points: &Points<NUM_POINTS>) -> (r:
        Result<(), Error>)
        requires
            old(dr).room(4 * 459 + 1, 4 * 918 + 4),
        ensures
            ({
                let v = endoscalar.val();
                let start = self.start_point(points);
                let ins = self.step_inputs(points);
                let n = ins.len();
                let good = endoscalar.consistent() && start.consistent() && all_points_consistent(
                    points.inputs@,
                ) && all_points_consistent(points.interstitials@);
                let fin = step_acc(v, (start.xv(), start.yv()), ins, n);
                let target = points.interstitials@[self.index() as int];
                &&& good ==> (r is Ok <==> {
                    &&& step_ok(v, (start.xv(), start.yv()), ins, n)
                    &&& step_nonzero(v, (start.xv(), start.yv()), ins, n) != 0
                    &&& fin == (target.xv(), target.yv())
                })
                &&& r is Ok ==> old(dr).grew(*final(dr), 459 * n + 1, 918 * n + 4)
            }),
    {
        proof {
            use_type_invariant(self);
        }
        let ghost d0 = *dr;
        let ghost v = endoscalar.val();
        let n_inter = points.interstitials.len();
        let n_inputs = points.inputs.len();
        let mut acc = if self.step == 0 {
            points.initial
        } else {
            *points.interstitials.get(self.step - 1)
        };
        proof {
            assert(acc == self.start_point(points));
        }
        let ghost start = (acc.xv(), acc.yv());
        let ghost good = endoscalar.consistent() && acc.consistent() && all_points_consistent(points.inputs@)
            && all_points_consistent(points.interstitials@);
        let range = self.input_range();
        let ghost ins = self.step_inputs(points);
        let mut nonzero_acc = Element::one();
        let mut idx = range.start;
        proof {
            assert(ins.len() == range.end - range.start);
        }
        while idx < range.end
            invariant
                range.start <= idx <= range.end,
                range.end <= n_inputs,
                n_inputs == points.inputs@.len(),
                ins == coords(points.inputs@).subrange(range.start as int, range.end as int),
                v == endoscalar.val(),
                good == (endoscalar.consistent() && self.start_point(points).consistent()
                    && all_points_consistent(points.inputs@) && all_points_consistent(points.interstitials@)),
                start == (self.start_point(points).xv(), self.start_point(points).yv()),
                ins == self.step_inputs(points),
                good ==> (acc.xv(), acc.yv()) == step_acc(v, start, ins, (idx - range.start) as nat),
                good ==> acc.consistent(),
                good ==> step_ok(v, start, ins, (idx - range.start) as nat),
                good ==> nonzero_acc.val() == step_nonzero(v, start, ins, (idx - range.start) as nat),
                good ==> nonzero_acc.consistent(),
                range.end - range.start <= 4,
                d0.room(4 * 459 + 1, 4 * 918 + 4),
                dr.gates() == d0.gates() + 459 * (idx - range.start),
                dr.constraints() == d0.constraints() + 918 * (idx - range.start),
            decreases range.end - idx,
        {
            let ghost k = (idx - range.start) as nat;
            let input = points.inputs.get(idx);
            proof {
                if good {
                    assert(points.inputs@[idx as int].consistent());
                    assert(ins[k as int] == (input.xv(), input.yv()));
                }
            }
            let a = acc;
            proof {
                reveal(step_next);
            }
            acc = match scale_and_add(dr, endoscalar, &a, input, &mut nonzero_acc) {
                Ok(next) => next,
                Err(err) => {
                    proof {
                        if good {
                            let sa = step_acc(v, start, ins, k);
                            assert(sa == (a.xv(), a.yv()));
                            assert(a.consistent());
                            assert(input.consistent());
                            assert(!(scale_ok(v, sa.0, sa.1, 64) && scale_acc(v, sa.0, sa.1, 64).0 != ins[k as int].0));
                            assert(!step_ok(v, start, ins, k + 1));
                            assert(k + 1 <= ins.len());
                            if step_ok(v, start, ins, ins.len()) {
                                lemma_step_ok_prefix(v, start, ins, k + 1, ins.len());
                            }
                            assert(!step_ok(v, start, ins, ins.len()));
                        }
                    }
                    return Err(err);
                },
            };
            idx = idx + 1;
        }
        nonzero_acc.invert(dr)?;
        let target = points.interstitials.get(self.step);
        proof {
            if good {
                assert(points.interstitials@[self.step as int].consistent());
            }
        }
        acc.enforce_equal(dr, target)
    }
}


/// The points witness of an endoscaling: the initial accumulator, the
/// inputs, and one interstitial per step.
pub struct PointsWitness<const NUM_POINTS: usize> {
    pub initial: pasta_curves::EpAffine,
    pub inputs: FixedVec<pasta_curves::EpAffine, InputsLen<NUM_POINTS>>,
    pub interstitials: FixedVec<pasta_curves::EpAffine, NumStepsLen<NUM_POINTS>>,
}

#[verifier::external_type_specification]
#[verifier::external_body]
pub struct ExEp(pasta_curves::Ep);

/// What `PrimeCurveAffine::to_curve` of `pasta_curves::EpAffine` gives: the
/// point in projective form.
pub uninterp spec fn ep_to_curve(p: pasta_curves::EpAffine) -> pasta_curves::Ep;

/// What `Mul<Fq>` of `pasta_curves::Ep` gives: the point multiplied by the
/// scalar `s`.
pub uninterp spec fn ep_scale(p: pasta_curves::Ep, s: nat) -> pasta_curves::Ep;

/// What `Add` of `pasta_curves::Ep` gives: the sum of two points.
pub uninterp spec fn ep_sum(a: pasta_curves::Ep, b: pasta_curves::Ep) -> pasta_curves::Ep;

/// What `Curve::batch_normalize` of `pasta_curves::Ep` gives for each
/// point: its affine form.
pub uninterp spec fn ep_normalized(p: pasta_curves::Ep) -> pasta_curves::EpAffine;

/// The point `p` in projective form, by `PrimeCurveAffine::to_curve`; the
/// contract claims only that the result is the one [`ep_to_curve`] names.
#[verifier::external_body]
fn to_curve(p: &pasta_curves::EpAffine) -> (r: pasta_curves::Ep)
    ensures
        r == ep_to_curve(*p),
{
    group::prime::PrimeCurveAffine::to_curve(p)
}

/// `p` times `s`, by `Mul<Fq>` of `pasta_curves::Ep`; the contract claims
/// only that the result is the one [`ep_scale`] names.
#[verifier::external_body]
fn ep_mul(p: &pasta_curves::Ep, s: &Fq) -> (r: pasta_curves::Ep)
    ensures
        r == ep_scale(*p, s@),
{
    *p * pasta_curves::Fq::from_repr(s.bytes).unwrap()
}

/// `a + b`, by `Add` of `pasta_curves::Ep`; the contract claims only that
/// the result is the one [`ep_sum`] names.
#[verifier::external_body]
fn ep_add(a: &pasta_curves::Ep, b: &pasta_curves::Ep) -> (r: pasta_curves::Ep)
    ensures
        r == ep_sum(*a, *b),
{
    *a + *b
}

/// The affine forms of `ps`, by `Curve::batch_normalize`, one per point in
/// order; the contract claims only that each is the one [`ep_normalized`]
/// names.
#[verifier::external_body]
fn batch_normalize(ps: &[pasta_curves::Ep]) -> (r: Vec<pasta_curves::EpAffine>)
    ensures
        r@.len() == ps@.len(),
        forall|i: int| 0 <= i < ps@.len() ==> #[trigger] r@[i] == ep_normalized(ps@[i]),
{
    let mut out = vec![<pasta_curves::EpAffine as group::prime::PrimeCurveAffine>::identity(); ps.len()];
    <pasta_curves::Ep as group::Curve>::batch_normalize(ps, &mut out);
    out
}

/// The accumulator after Horner's rule over `inputs` from `acc`: each input
/// is added to the accumulator multiplied by `s`.
pub open spec fn ep_horner(acc: pasta_curves::Ep, s: nat, inputs: Seq<pasta_curves::EpAffine>) -> pasta_curves::Ep
    decreases inputs.len(),
{
    if inputs.len() == 0 {
        acc
    } else {
        ep_sum(ep_scale(ep_horner(acc, s, inputs.drop_last()), s), ep_to_curve(inputs.last()))
    }
}

/// The number of inputs that steps `0..=k` scale and add, of `len`.
pub open spec fn step_end(k: nat, len: nat) -> nat {
    vstd::math::min((4 * k + 4) as int, len as int) as nat
}

impl<const NUM_POINTS: usize> PointsWitness<NUM_POINTS> {
    /// The witness for `points`: the first is the initial accumulator, the
    /// others the inputs; the interstitials are computed by Horner's rule
    /// in the scalar that `endoscalar` lifts to, one after each step of
    /// four inputs (and the initial point itself when there is no input).
    pub fn new(endoscalar: u128, points: &[pasta_curves::EpAffine]) -> (r: PointsWitness<NUM_POINTS>)
        requires
            NUM_POINTS > 0,
            points@.len() == NUM_POINTS,
        ensures
            r.initial == points@[0],
            r.inputs@ == points@.skip(1),
            r.interstitials@.len() == num_steps_spec(NUM_POINTS as nat),
            forall|k: int|
                0 <= k < num_steps_spec(NUM_POINTS as nat) ==> #[trigger] r.interstitials@[k] == ep_normalized(
                    ep_horner(
                        ep_to_curve(points@[0]),
                        qlift_value(endoscalar),
                        points@.skip(1).take(step_end(k as nat, (NUM_POINTS - 1) as nat) as int),
                    ),
                ),
    {
        let initial = points[0];
        let mut inputs: Vec<pasta_curves::EpAffine> = Vec::new();
        let mut i: usize = 1;
        while i < points.len()
            invariant
                1 <= i <= points@.len(),
                inputs@ == points@.subrange(1, i as int),
            decreases points@.len() - i,
        {
            inputs.push(points[i]);
            i = i + 1;
            proof {
                assert(inputs@ =~= points@.subrange(1, i as int));
            }
        }
        let ghost ins = inputs@;
        proof {
            assert(ins =~= points@.skip(1));
        }
        let len = inputs.len();
        let s = lift_to_scalar(endoscalar);
        let ghost sv = s@;
        let ghost start = ep_to_curve(initial);
        let mut acc = to_curve(&initial);
        let steps = num_steps(NUM_POINTS);
        let mut inter: Vec<pasta_curves::Ep> = Vec::new();
        let mut pos: usize = 0;
        let mut k: usize = 0;
        while k < steps
            invariant
                k <= steps,
                steps == num_steps_spec(NUM_POINTS as nat),
                len == ins.len(),
                len == NUM_POINTS - 1,
                ins == inputs@,
                sv == s@,
                pos == vstd::math::min((4 * k) as int, len as int),
                acc == ep_horner(start, sv, ins.take(pos as int)),
                inter@.len() == k,
                forall|j: int|
                    0 <= j < k ==> #[trigger] inter@[j] == ep_horner(start, sv, ins.take(step_end(j as nat, len as nat) as int)),
            decreases steps - k,
        {
            let end = if len - pos < 4 {
                len
            } else {
                pos + 4
            };
            while pos < end
                invariant
                    pos <= end,
                    end <= len,
                    len == ins.len(),
                    ins == inputs@,
                    sv == s@,
                    acc == ep_horner(start, sv, ins.take(pos as int)),
                decreases end - pos,
            {
                let scaled = ep_mul(&acc, &s);
                acc = ep_add(&scaled, &to_curve(&inputs[pos]));
                proof {
                    assert(ins.take(pos + 1).drop_last() =~= ins.take(pos as int));
                    assert(ins.take(pos + 1).last() == ins[pos as int]);
                }
                pos = pos + 1;
            }
            proof {
                assert(end == step_end(k as nat, len as nat));
            }
            inter.push(acc);
            k = k + 1;
        }
        let normalized = batch_normalize(inter.as_slice());
        PointsWitness {
            initial,
            inputs: FixedVec::new(inputs).unwrap(),
            interstitials: FixedVec::new(normalized).unwrap(),
        }
    }
}

/// Whether every point of `s` has affine coordinates on the curve.
pub open spec fn all_on_curve(s: Seq<pasta_curves::EpAffine>) -> bool {
    forall|i: int|
        0 <= i < s.len() ==> (ep_coordinates(#[trigger] s[i]) matches Some((x, y)) && on_curve(x, y))
}

/// Whether the gadgets of `g` hold the coordinates of the points of `w`.
pub open spec fn allocated_from(g: Seq<Point>, w: Seq<pasta_curves::EpAffine>) -> bool {
    &&& g.len() == w.len()
    &&& forall|i: int|
        0 <= i < g.len() ==> ep_coordinates(w[i]) == Some(((#[trigger] g[i]).xv(), g[i].yv())) && g[i].consistent()
}

/// Allocates each point of `points`.
fn allocate_points(dr: &mut Simulator, points: &[pasta_curves::EpAffine]) -> (r: Result<Vec<Point>, Error>)
    requires
        old(dr).room(3 * points@.len(), 5 * points@.len()),
    ensures
        r is Ok <==> all_on_curve(points@),
        r matches Ok(v) ==> allocated_from(v@, points@) && old(dr).grew(
            *final(dr),
            3 * points@.len(),
            5 * points@.len(),
        ),
{
    let ghost d0 = *dr;
    let mut out: Vec<Point> = Vec::new();
    let mut i: usize = 0;
    while i < points.len()
        invariant
            i <= points@.len(),
            out@.len() == i,
            forall|j: int|
                0 <= j < i ==> ep_coordinates(points@[j]) == Some(((#[trigger] out@[j]).xv(), out@[j].yv()))
                    && out@[j].consistent(),
            forall|j: int|
                0 <= j < i ==> (ep_coordinates(#[trigger] points@[j]) matches Some((x, y)) && on_curve(x, y)),
            d0.room(3 * points@.len(), 5 * points@.len()),
            dr.gates() == d0.gates() + 3 * i,
            dr.constraints() == d0.constraints() + 5 * i,
        decreases points@.len() - i,
    {
        let q = match Point::allocate(dr, &points[i]) {
            Ok(q) => q,
            Err(e) => {
                proof {
                    assert(!(ep_coordinates(points@[i as int]) matches Some((x, y)) && on_curve(x, y)));
                }
                return Err(e);
            },
        };
        out.push(q);
        i = i + 1;
    }
    Ok(out)
}

/// The stage that allocates the points of an endoscaling.
pub struct PointsStage<const NUM_POINTS: usize>;

impl<const NUM_POINTS: usize> PointsStage<NUM_POINTS> {
    /// The number of values the stage allocates: two coordinates for the
    /// initial point, each input and each interstitial.
    pub fn values() -> (r: usize)
        requires
            2 * (1 + InputsLen::<NUM_POINTS>::length() + NumStepsLen::<NUM_POINTS>::length()) <= usize::MAX,
        ensures
            r == 2 * (1 + InputsLen::<NUM_POINTS>::length() + NumStepsLen::<NUM_POINTS>::length()),
    {
        2 * (1 + InputsLen::<NUM_POINTS>::len() + NumStepsLen::<NUM_POINTS>::len())
    }

    /// Allocates the points of `witness`: three gates and five constraints
    /// per point. Fails unless every point has affine coordinates on the
    /// curve.
    pub fn witness(&self, dr: &mut Simulator, witness: &PointsWitness<NUM_POINTS>) -> (r: Result<
        Points<NUM_POINTS>,
        Error,
    >)
        requires
            old(dr).room(
                3 * (1 + witness.inputs@.len() + witness.interstitials@.len()),
                5 * (1 + witness.inputs@.len() + witness.interstitials@.len()),
            ),
        ensures
            r is Ok <==> all_on_curve(seq![witness.initial] + witness.inputs@ + witness.interstitials@),
            r matches Ok(points) ==> {
                &&& allocated_from(seq![points.initial], seq![witness.initial])
                &&& allocated_from(points.inputs@, witness.inputs@)
                &&& allocated_from(points.interstitials@, witness.interstitials@)
            },
    {
        let ghost all = seq![witness.initial] + witness.inputs@ + witness.interstitials@;
        let initial = match Point::allocate(dr, &witness.initial) {
            Ok(q) => q,
            Err(e) => {
                proof {
                    assert(all[0] == witness.initial);
                }
                return Err(e);
            },
        };
        let inputs = match allocate_points(dr, witness.inputs.as_slice()) {
            Ok(v) => v,
            Err(e) => {
                proof {
                    let j = choose|j: int|
                        0 <= j < witness.inputs@.len() && !(ep_coordinates(#[trigger] witness.inputs@[j]) matches Some(
                            (x, y),
                        ) && on_curve(x, y));
                    assert(all[1 + j] == witness.inputs@[j]);
                }
                return Err(e);
            },
        };
        let interstitials = match allocate_points(dr, witness.interstitials.as_slice()) {
            Ok(v) => v,
            Err(e) => {
                proof {
                    let j = choose|j: int|
                        0 <= j < witness.interstitials@.len() && !(ep_coordinates(
                            #[trigger] witness.interstitials@[j],
                        ) matches Some((x, y)) && on_curve(x, y));
                    assert(all[1 + witness.inputs@.len() + j] == witness.interstitials@[j]);
                }
                return Err(e);
            },
        };
        proof {
            assert forall|i: int| 0 <= i < all.len() implies (ep_coordinates(#[trigger] all[i]) matches Some(
                (x, y),
            ) && on_curve(x, y)) by {
                if i == 0 {
                } else if i < 1 + witness.inputs@.len() {
                    assert(all[i] == witness.inputs@[i - 1]);
                } else {
                    assert(all[i] == witness.interstitials@[i - 1 - witness.inputs@.len()]);
                }
            }
        }
        let inputs = match FixedVec::new(inputs) {
            Ok(f) => f,
            Err(e) => {
                proof {
                    assert(false);
                }
                return Err(e);
            },
        };
        let interstitials = match FixedVec::new(interstitials) {
            Ok(f) => f,
            Err(e) => {
                proof {
                    assert(false);
                }
                return Err(e);
            },
        };
        Ok(Points { initial, inputs, interstitials })
    }
}


/// A step's accumulator after `k` inputs depends only on its first `k`
/// inputs.
proof fn lemma_step_acc_prefix(v: u128, start: (nat, nat), s: Seq<(nat, nat)>, t: Seq<(nat, nat)>, k: nat)
    requires
        k <= s.len(),
        k <= t.len(),
        s.take(k as int) == t.take(k as int),
    ensures
        step_acc(v, start, s, k) == step_acc(v, start, t, k),
    decreases k,
{
    if k > 0 {
        assert(s.take(k - 1) == s.take(k as int).take(k - 1));
        assert(t.take(k - 1) == t.take(k as int).take(k - 1));
        lemma_step_acc_prefix(v, start, s, t, (k - 1) as nat);
        assert(s[k - 1] == s.take(k as int)[k - 1]);
        assert(t[k - 1] == t.take(k as int)[k - 1]);
    }
}

/// Horner's rule splits anywhere: scaling and adding the inputs `a + b`
/// from `start` is doing so for `a`, and then for `b` from where `a` ended.
pub proof fn lemma_step_acc_concat(v: u128, start: (nat, nat), a: Seq<(nat, nat)>, b: Seq<(nat, nat)>)
    ensures
        step_acc(v, start, a + b, a.len() + b.len()) == step_acc(
            v,
            step_acc(v, start, a, a.len()),
            b,
            b.len(),
        ),
    decreases b.len(),
{
    let mid = step_acc(v, start, a, a.len());
    if b.len() == 0 {
        assert(a + b =~= a);
    } else {
        let b1 = b.drop_last();
        lemma_step_acc_concat(v, start, a, b1);
        let n = a.len() + b.len();
        assert((a + b).take(n - 1) =~= (a + b1).take(n - 1));
        lemma_step_acc_prefix(v, start, a + b, a + b1, (n - 1) as nat);
        assert(b.take(b1.len() as int) =~= b1.take(b1.len() as int));
        lemma_step_acc_prefix(v, mid, b, b1, b1.len());
        assert((a + b)[n - 1] == b[b.len() - 1]);
    }
}

/// The inputs of step `k` of an endoscaling of `inputs`: `inputs[4 k ..
/// min(4 k + 4, len)]`.
pub open spec fn step_range(inputs: Seq<(nat, nat)>, k: nat) -> Seq<(nat, nat)> {
    let end = if 4 * k + 4 < inputs.len() { (4 * k + 4) as int } else { inputs.len() as int };
    inputs.subrange(4 * k as int, end)
}

/// Whether interstitial `k` is the Horner accumulation of step `k`'s
/// inputs, starting from the previous interstitial, or from `initial` for
/// the first step.
pub open spec fn step_matches(
    v: u128,
    initial: (nat, nat),
    inputs: Seq<(nat, nat)>,
    inter: Seq<(nat, nat)>,
    k: int,
) -> bool {
    inter[k] == step_acc(
        v,
        if k == 0 { initial } else { inter[k - 1] },
        step_range(inputs, k as nat),
        step_range(inputs, k as nat).len(),
    )
}

/// The steps of an endoscaling compose: when each interstitial is its
/// step's Horner accumulation, starting from the previous interstitial (or
/// the initial point), every interstitial is the Horner accumulation of all
/// inputs up to the end of its step, and the last one that of all inputs.
pub proof fn lemma_steps_compose(v: u128, initial: (nat, nat), inputs: Seq<(nat, nat)>, inter: Seq<(nat, nat)>)
    requires
        inter.len() == num_steps_spec(inputs.len() + 1),
        forall|k: int| 0 <= k < inter.len() ==> #[trigger] step_matches(v, initial, inputs, inter, k),
    ensures
        forall|k: int|
            0 <= k < inter.len() ==> {
                let end = if 4 * k + 4 < inputs.len() { 4 * k + 4 } else { inputs.len() as int };
                #[trigger] inter[k] == step_acc(v, initial, inputs.take(end), end as nat)
            },
        inter.last() == step_acc(v, initial, inputs, inputs.len()),
    decreases inter.len(),
{
    assert forall|k: int| 0 <= k < inter.len() implies {
        let end = if 4 * k + 4 < inputs.len() { 4 * k + 4 } else { inputs.len() as int };
        #[trigger] inter[k] == step_acc(v, initial, inputs.take(end), end as nat)
    } by {
        lemma_step_prefix_of_steps(v, initial, inputs, inter, k as nat);
    }
    let last = inter.len() - 1;
    let end = if 4 * last + 4 < inputs.len() { 4 * last + 4 } else { inputs.len() as int };
    assert(inter.len() >= 1);
    assert(end == inputs.len()) by {
        let n = inputs.len();
        if n > 0 {
            assert(4 * last + 4 >= n) by (nonlinear_arith)
                requires
                    last == inter.len() - 1,
                    inter.len() == num_steps_spec(n + 1),
                    n > 0,
            ;
        }
    }
    assert(inputs.take(end) =~= inputs);
}

/// Every step starts within the inputs.
proof fn lemma_step_start(n: nat, k: nat)
    requires
        k < num_steps_spec(n + 1),
    ensures
        4 * k <= n,
{
    let q = (n + 3) / 4;
    vstd::arithmetic::div_mod::lemma_fundamental_div_mod((n + 3) as int, 4);
    assert((n + 3) as int == 4 * q + (n + 3) % 4);
}

proof fn lemma_step_prefix_of_steps(v: u128, initial: (nat, nat), inputs: Seq<(nat, nat)>, inter: Seq<(nat, nat)>, k: nat)
    requires
        k < inter.len(),
        inter.len() == num_steps_spec(inputs.len() + 1),
        forall|j: int| 0 <= j < inter.len() ==> #[trigger] step_matches(v, initial, inputs, inter, j),
    ensures
        ({
            let end = if 4 * k + 4 < inputs.len() { (4 * k + 4) as int } else { inputs.len() as int };
            inter[k as int] == step_acc(v, initial, inputs.take(end), end as nat)
        }),
    decreases k,
{
    let n = inputs.len() as int;
    let ki = k as int;
    let end = if 4 * ki + 4 < n { 4 * ki + 4 } else { n };
    lemma_step_start(inputs.len(), k);
    let r = step_range(inputs, k);
    assert(step_matches(v, initial, inputs, inter, ki));
    assert(r =~= inputs.subrange(4 * ki, end));
    if k == 0 {
        assert(inputs.take(end) =~= r);
    } else {
        lemma_step_prefix_of_steps(v, initial, inputs, inter, (k - 1) as nat);
        let prev = inputs.take(4 * ki);
        assert(prev + r =~= inputs.take(end));
        lemma_step_acc_concat(v, initial, prev, r);
    }
}

} // verus!
