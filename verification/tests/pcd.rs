use group::prime::PrimeCurveAffine;
use group::ff::PrimeField;
use group::{Curve, Group};
use pasta_curves::arithmetic::CurveExt;
use pasta_curves::{Ep, EpAffine};
use ragu::const_fns::{push, unwrap_all};
use ragu::endoscalar::Endoscalar;
use ragu::endoscaling::{
    num_steps, EndoscalarStage, EndoscalingStep, InputsLen, NumStepsLen, Points, PointsStage, PointsWitness,
    ENDOSCALINGS_PER_STEP,
};
use ragu::header::{Suffix, NUM_INTERNAL_SUFFIXES};
use ragu::point::Point;
use ragu::simulator::Simulator;
use ragu::vec::{FixedVec, Len};

#[test]
fn test_suffix_map() {
    assert_eq!(Suffix::internal(0).get(), 0);
    assert_eq!(Suffix::internal(1).get(), 1);
    assert_eq!(Suffix::new(0).get(), 2);
    assert_eq!(Suffix::new(1).get(), 3);
}

#[test]
fn suffixes_compare_by_kind_then_index() {
    assert_eq!(NUM_INTERNAL_SUFFIXES, 2);
    assert!(Suffix::internal(1) < Suffix::new(0));
    assert!(Suffix::new(3) < Suffix::new(4));
    assert_eq!(Suffix::new(7), Suffix::new(7));
    assert_ne!(Suffix::new(0), Suffix::internal(0));
}

#[test]
fn test_num_steps_len() {
    assert_eq!(NumStepsLen::<1>::len(), 1);

    assert_eq!(NumStepsLen::<2>::len(), 1);
    assert_eq!(NumStepsLen::<3>::len(), 1);
    assert_eq!(NumStepsLen::<4>::len(), 1);
    assert_eq!(NumStepsLen::<5>::len(), 1);

    assert_eq!(NumStepsLen::<6>::len(), 2);
    assert_eq!(NumStepsLen::<7>::len(), 2);
    assert_eq!(NumStepsLen::<8>::len(), 2);
    assert_eq!(NumStepsLen::<9>::len(), 2);

    assert_eq!(NumStepsLen::<10>::len(), 3);
    assert_eq!(NumStepsLen::<11>::len(), 3);
    assert_eq!(NumStepsLen::<12>::len(), 3);
    assert_eq!(NumStepsLen::<13>::len(), 3);

    assert_eq!(NumStepsLen::<14>::len(), 4);
    assert_eq!(NumStepsLen::<15>::len(), 4);
    assert_eq!(NumStepsLen::<16>::len(), 4);
    assert_eq!(NumStepsLen::<17>::len(), 4);

    assert_eq!(NumStepsLen::<18>::len(), 5);
    assert_eq!(NumStepsLen::<19>::len(), 5);
    assert_eq!(NumStepsLen::<20>::len(), 5);
    assert_eq!(NumStepsLen::<21>::len(), 5);
}

#[test]
fn num_steps_and_inputs_len() {
    assert_eq!(num_steps(1), 1);
    assert_eq!(num_steps(11), 3);
    assert_eq!(num_steps(13), 3);
    assert_eq!(num_steps(14), 4);
    assert_eq!(InputsLen::<11>::len(), 10);
    assert_eq!(InputsLen::<1>::len(), 0);
    assert_eq!(ENDOSCALINGS_PER_STEP, 4);
    assert_eq!(EndoscalarStage::values(), 128);
}

fn range<const NUM_POINTS: usize>(step: usize) -> core::ops::Range<usize> {
    EndoscalingStep::<NUM_POINTS>::new(step).input_range()
}

#[test]
fn test_input_range() {
    assert_eq!(range::<1>(0), 0..0);
    assert_eq!(range::<2>(0), 0..1);
    assert_eq!(range::<5>(0), 0..4);
    assert_eq!(range::<6>(0), 0..4);
    assert_eq!(range::<6>(1), 4..5);
    assert_eq!(range::<9>(0), 0..4);
    assert_eq!(range::<9>(1), 4..8);
    assert_eq!(range::<11>(0), 0..4);
    assert_eq!(range::<11>(1), 4..8);
    assert_eq!(range::<11>(2), 8..10);
    assert_eq!(range::<13>(0), 0..4);
    assert_eq!(range::<13>(1), 4..8);
    assert_eq!(range::<13>(2), 8..12);
    assert_eq!(range::<14>(0), 0..4);
    assert_eq!(range::<14>(1), 4..8);
    assert_eq!(range::<14>(2), 8..12);
    assert_eq!(range::<14>(3), 12..13);
}

/// Algorithm 1 of [BGH19] on native curve points.
fn scale_native(value: u128, p: &Ep) -> Ep {
    let mut acc = (p.endo() + p).double();
    for i in 0..64 {
        let bits = value >> (i << 1);
        let mut s = *p;
        if bits & 0b01 != 0 {
            s = -s;
        }
        if bits & 0b10 != 0 {
            s = s.endo();
        }
        acc = (acc + s) + acc;
    }
    acc
}

fn sample_points(count: usize) -> Vec<EpAffine> {
    let g = Ep::generator();
    let mut p = g;
    let mut out = Vec::new();
    for _ in 0..count {
        p = p.double() + g;
        out.push(p.to_affine());
    }
    out
}

/// The interstitials of each step, by Horner's rule over the inputs.
fn interstitials<const NUM_POINTS: usize>(value: u128, initial: &EpAffine, inputs: &[EpAffine]) -> Vec<EpAffine> {
    let steps = NumStepsLen::<NUM_POINTS>::len();
    let mut out: Vec<EpAffine> = Vec::new();
    for step in 0..steps {
        let mut acc = if step == 0 { initial.to_curve() } else { out[step - 1].to_curve() };
        let start = step * 4;
        let end = (start + 4).min(inputs.len());
        for input in &inputs[start..end] {
            acc = scale_native(value, &acc) + input.to_curve();
        }
        out.push(acc.to_affine());
    }
    out
}

fn allocate_points<const NUM_POINTS: usize>(
    dr: &mut Simulator,
    initial: &EpAffine,
    inputs: &[EpAffine],
    inter: &[EpAffine],
) -> Points<NUM_POINTS> {
    let initial = Point::allocate(dr, initial).unwrap();
    let inputs: Vec<Point> = inputs.iter().map(|p| Point::allocate(dr, p).unwrap()).collect();
    let inter: Vec<Point> = inter.iter().map(|p| Point::allocate(dr, p).unwrap()).collect();
    Points {
        initial,
        inputs: FixedVec::new(inputs).unwrap(),
        interstitials: FixedVec::new(inter).unwrap(),
    }
}

#[test]
fn endoscaling_steps_constrain_interstitials() {
    const NUM_POINTS: usize = 11;
    let value: u128 = rand::random();
    let all = sample_points(NUM_POINTS);
    let inter = interstitials::<NUM_POINTS>(value, &all[0], &all[1..]);
    assert_eq!(inter.len(), 3);

    for step in 0..3 {
        let mut dr = Simulator::new();
        let endo = EndoscalarStage.witness(&mut dr, value).unwrap();
        let points = allocate_points::<NUM_POINTS>(&mut dr, &all[0], &all[1..], &inter);
        dr.reset();
        let circuit = EndoscalingStep::<NUM_POINTS>::new(step);
        circuit.witness(&mut dr, &endo, &points).unwrap();
        let n = circuit.input_range().len();
        assert_eq!(dr.num_gates(), 459 * n + 1);
        assert_eq!(dr.num_constraints(), 918 * n + 4);
    }
}

#[test]
fn endoscaling_step_rejects_wrong_interstitial() {
    const NUM_POINTS: usize = 6;
    let value: u128 = rand::random();
    let all = sample_points(NUM_POINTS);
    let mut inter = interstitials::<NUM_POINTS>(value, &all[0], &all[1..]);
    inter[1] = EpAffine::generator();
    let mut dr = Simulator::new();
    let endo = Endoscalar::allocate(&mut dr, value).unwrap();
    let points = allocate_points::<NUM_POINTS>(&mut dr, &all[0], &all[1..], &inter);
    EndoscalingStep::<NUM_POINTS>::new(0).witness(&mut dr, &endo, &points).unwrap();
    assert!(EndoscalingStep::<NUM_POINTS>::new(1).witness(&mut dr, &endo, &points).is_err());
}

#[test]
fn push_and_unwrap_all_fill_a_table() {
    let mut slots: [Option<u32>; 3] = [None; 3];
    let mut c = 0usize;
    push(&mut slots, &mut c, 7);
    push(&mut slots, &mut c, 8);
    push(&mut slots, &mut c, 9);
    assert_eq!(c, 3);
    assert_eq!(unwrap_all(slots), [7, 8, 9]);
}

#[test]
fn points_stage_allocates_all_points() {
    const NUM_POINTS: usize = 6;
    let value: u128 = rand::random();
    let all = sample_points(NUM_POINTS);
    let inter = interstitials::<NUM_POINTS>(value, &all[0], &all[1..]);
    let witness = PointsWitness::<NUM_POINTS> {
        initial: all[0],
        inputs: FixedVec::new(all[1..].to_vec()).unwrap(),
        interstitials: FixedVec::new(inter.clone()).unwrap(),
    };
    assert_eq!(PointsStage::<NUM_POINTS>::values(), 2 * (1 + 5 + 2));
    let mut dr = Simulator::new();
    let points = PointsStage::<NUM_POINTS>.witness(&mut dr, &witness).unwrap();
    assert_eq!(dr.num_gates(), 3 * 8);
    assert_eq!(points.initial.value(), all[0]);
    assert_eq!(points.interstitials.get(1).value(), inter[1]);
    let endo = Endoscalar::allocate(&mut dr, value).unwrap();
    EndoscalingStep::<NUM_POINTS>::new(1).witness(&mut dr, &endo, &points).unwrap();

    let bad = PointsWitness::<NUM_POINTS> {
        initial: EpAffine::identity(),
        inputs: FixedVec::new(all[1..].to_vec()).unwrap(),
        interstitials: FixedVec::new(inter).unwrap(),
    };
    assert!(PointsStage::<NUM_POINTS>.witness(&mut dr, &bad).is_err());
}

#[test]
fn single_point_endoscaling_constrains_the_interstitial_to_the_initial_point() {
    const NUM_POINTS: usize = 1;
    let value: u128 = rand::random();
    let all = sample_points(2);
    let mut dr = Simulator::new();
    let endo = Endoscalar::allocate(&mut dr, value).unwrap();
    let points = allocate_points::<NUM_POINTS>(&mut dr, &all[0], &[], &all[..1]);
    dr.reset();
    let step = EndoscalingStep::<NUM_POINTS>::new(0);
    assert!(step.input_range().is_empty());
    step.witness(&mut dr, &endo, &points).unwrap();
    assert_eq!(dr.num_gates(), 1);
    assert_eq!(dr.num_constraints(), 4);
    let wrong = allocate_points::<NUM_POINTS>(&mut dr, &all[0], &[], &all[1..2]);
    assert!(step.witness(&mut dr, &endo, &wrong).is_err());
}

#[test]
fn unwrap_all_of_an_empty_table_is_empty() {
    let slots: [Option<u8>; 0] = [];
    let out: [u8; 0] = unwrap_all(slots);
    assert_eq!(out.len(), 0);
}

fn check_points_witness_new<const NUM_POINTS: usize>() {
    let endoscalar: u128 = rand::random();
    let base_inputs: Vec<EpAffine> = (0..NUM_POINTS)
        .map(|_| (Ep::generator() * pasta_curves::Fq::from_u128(rand::random::<u128>())).to_affine())
        .collect();
    let from_new = PointsWitness::<NUM_POINTS>::new(endoscalar, &base_inputs);
    let initial = base_inputs[0];
    let inputs_slice = &base_inputs[1..];
    let expected = interstitials::<NUM_POINTS>(endoscalar, &initial, inputs_slice);
    assert_eq!(from_new.initial, initial);
    for (a, b) in from_new.inputs.as_slice().iter().zip(inputs_slice) {
        assert_eq!(a, b);
    }
    assert_eq!(from_new.interstitials.as_slice().len(), expected.len());
    for (a, b) in from_new.interstitials.as_slice().iter().zip(&expected) {
        assert_eq!(a, b);
    }
}

#[test]
fn test_points_witness_new() {
    check_points_witness_new::<1>();
    check_points_witness_new::<2>();
    check_points_witness_new::<3>();
    check_points_witness_new::<4>();
    check_points_witness_new::<5>();
    check_points_witness_new::<6>();
    check_points_witness_new::<9>();
    check_points_witness_new::<11>();
    check_points_witness_new::<13>();
    check_points_witness_new::<14>();
}
