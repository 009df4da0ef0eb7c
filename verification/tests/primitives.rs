use ragu::allocator::Standard;
use ragu::boolean::{multipack, Boolean};
use ragu::element::{multiadd, Element};
use ragu::error::{Error, WitnessError};
use ragu::field::Fp;
use ragu::simulator::Simulator;
use ragu::vec::{ConstLen, FixedVec};

fn fp(v: u64) -> Fp {
    Fp::from_u64(v)
}

/// Parses a big-endian hexadecimal literal into a field element.
fn fp_hex(hex: &str) -> Fp {
    let digits = hex.trim_start_matches("0x");
    let mut bytes = [0u8; 32];
    let padded = format!("{:0>64}", digits);
    for i in 0..32 {
        let byte = u8::from_str_radix(&padded[2 * i..2 * i + 2], 16).unwrap();
        bytes[31 - i] = byte;
    }
    Fp::from_repr(bytes).unwrap()
}

fn minus_one() -> Fp {
    fp(1).neg()
}

fn root_of_unity_cases() -> Vec<(Fp, u32, bool)> {
    let root_of_unity1 = fp_hex("0x2bce74deac30ebda362120830561f81aea322bf2b7bb7584bdad6fabd87ea32f");
    let root_of_unity2 = fp_hex("0x16d296aa2b2fb60c7f2cf0bd729140e59875893be132b539a16988b46a2131f1");
    let root_of_unity3 = fp_hex("0x0e16194e05e127fc65f98157c0a42b1c050cd2c5dd8b481c9d9e9fd0a13ee1c9");
    vec![
        (fp(1), 0, true),
        (fp(1), 1, true),
        (fp(1), 2, true),
        (fp(1), 3, true),
        (fp(1), 8, true),
        (fp(1), 30, true),
        (fp(1), 31, true),
        (fp(1), 32, true),
        (fp(1), 1000, true),
        (minus_one(), 0, false),
        (minus_one(), 1, true),
        (minus_one(), 2, true),
        (minus_one(), 32, true),
        (fp(0), 0, false),
        (fp(0), 1, false),
        (fp(0), 8, false),
        (fp(0), 32, false),
        (fp(2), 0, false),
        (fp(2), 1, false),
        (fp(2), 8, false),
        (fp(0xdeadbeef), 4, false),
        (root_of_unity1, 32, true),
        (root_of_unity1, 31, false),
        (root_of_unity1, 1, false),
        (root_of_unity2, 32, true),
        (root_of_unity2, 31, false),
        (root_of_unity2, 1, false),
        (root_of_unity3, 32, true),
        (root_of_unity3, 31, false),
        (root_of_unity3, 1, false),
    ]
}

#[test]
fn test_enforce_root_of_unity() {
    for (i, (omega, k, should_pass)) in root_of_unity_cases().into_iter().enumerate() {
        let mut dr = Simulator::new();
        let mut allocator = Standard::<bool>::new();
        let result = Element::allocate(&mut dr, &mut allocator, omega)
            .and_then(|omega| omega.enforce_root_of_unity(&mut dr, k));
        assert_eq!(
            result.is_ok(),
            should_pass,
            "test case {i} failed: omega={omega:?}, k={k}, expected should_pass={should_pass}",
        );
    }
}

fn div_case(a: Fp, b: Fp) -> Result<(), Error> {
    let mut dr = Simulator::new();
    let mut allocator = Standard::<bool>::new();
    let a = Element::allocate(&mut dr, &mut allocator, a)?;
    let b = Element::allocate(&mut dr, &mut allocator, b)?;
    let quotient = a.div_nonzero(&mut dr, &b)?;
    assert_eq!(quotient.value(), a.value().mul(&b.value().invert().unwrap()));
    assert_eq!(dr.num_gates(), 2);
    assert_eq!(dr.num_constraints(), 2);
    Ok(())
}

#[test]
fn test_div_nonzero() {
    div_case(fp(4578), fp(372)).unwrap();
    div_case(fp(0), fp(372)).unwrap();
    assert!(div_case(fp(4578), fp(0)).is_err());
}

fn invert_case(a: Fp) -> Result<(), Error> {
    let mut dr = Simulator::new();
    let mut allocator = Standard::<bool>::new();
    let a = Element::allocate(&mut dr, &mut allocator, a)?;
    dr.reset();
    let ainv = a.invert(&mut dr)?;
    assert_eq!(ainv.value(), a.value().invert().unwrap());
    assert_eq!(dr.num_gates(), 1);
    assert_eq!(dr.num_constraints(), 2);
    Ok(())
}

#[test]
fn test_invert() {
    invert_case(fp(4578)).unwrap();
    invert_case(fp(1)).unwrap();
    assert_eq!(
        invert_case(fp(0)),
        Err(Error::InvalidWitness(WitnessError::DivisionByZero))
    );
}

#[test]
fn element_add_sub_roundtrip() {
    let cases = [(3u64, 5u64), (0, 0), (u64::MAX, 7), (12345, u64::MAX)];
    for (a, b) in cases {
        let a_fe = fp(a).add(&fp(b).mul(&Fp::multiplicative_generator()));
        let b_fe = fp(b).add(&fp(a).mul(&Fp::multiplicative_generator()));
        let mut dr = Simulator::new();
        let mut allocator = Standard::<bool>::new();
        let x = Element::allocate(&mut dr, &mut allocator, a_fe).unwrap();
        let y = Element::allocate(&mut dr, &mut allocator, b_fe).unwrap();
        let sum = x.add(&mut dr, &y);
        let back = sum.sub(&mut dr, &y);
        assert_eq!(back.value(), a_fe);
    }
}

#[test]
fn element_mul_commutative() {
    let cases = [(3u64, 5u64), (0, 9), (u64::MAX, 7)];
    for (a, b) in cases {
        let mut dr = Simulator::new();
        let mut allocator = Standard::<bool>::new();
        let x = Element::allocate(&mut dr, &mut allocator, fp(a)).unwrap();
        let y = Element::allocate(&mut dr, &mut allocator, fp(b)).unwrap();
        let xy = x.mul(&mut dr, &y).unwrap();
        let yx = y.mul(&mut dr, &x).unwrap();
        assert_eq!(xy.value(), yx.value());
        assert_eq!(xy.value(), fp(a).mul(&fp(b)));
    }
}

#[test]
fn element_fold_is_horner() {
    let mut dr = Simulator::new();
    let elems: Vec<Element> = [2u64, 3, 5].iter().map(|v| Element::constant(&mut dr, fp(*v))).collect();
    let x = Element::constant(&mut dr, fp(10));
    let folded = Element::fold(&mut dr, &elems, &x).unwrap();
    assert_eq!(folded.value(), fp(235));
    assert_eq!(dr.num_gates(), 2);
    let empty = Element::fold(&mut dr, &[], &x).unwrap();
    assert_eq!(empty.value(), fp(0));
}

#[test]
fn element_multiadd_and_sum() {
    let mut dr = Simulator::new();
    let elems: Vec<Element> = [2u64, 3, 5].iter().map(|v| Element::constant(&mut dr, fp(*v))).collect();
    let total = multiadd(&mut dr, &elems, &[fp(1), fp(10), fp(100)]);
    assert_eq!(total.value(), fp(532));
    let sum = Element::sum(&mut dr, &elems);
    assert_eq!(sum.value(), fp(10));
    assert_eq!(dr.num_gates(), 0);
}

#[test]
fn element_alloc_square() {
    let mut dr = Simulator::new();
    let (a, sq) = Element::alloc_square(&mut dr, fp(12)).unwrap();
    assert_eq!(a.value(), fp(12));
    assert_eq!(sq.value(), fp(144));
    assert_eq!(dr.num_gates(), 1);
    assert_eq!(dr.num_constraints(), 1);
}

#[test]
fn element_inconsistent_wire_is_rejected() {
    let mut dr = Simulator::new();
    let bad = Element::promote(fp(1), fp(2));
    let good = Element::constant(&mut dr, fp(3));
    assert!(matches!(
        bad.mul(&mut dr, &good),
        Err(Error::InvalidWitness(WitnessError::ConstraintFailed))
    ));
}

#[test]
fn test_boolean_alloc() {
    for bit in [false, true] {
        let mut dr = Simulator::new();
        let b = Boolean::allocate(&mut dr, &mut (), bit).unwrap();
        assert_eq!(b.value(), bit);
        assert_eq!(b.wire(), if bit { fp(1) } else { fp(0) });
        assert_eq!(dr.num_gates(), 1);
        assert_eq!(dr.num_constraints(), 2);
    }
}

#[test]
fn test_boolean_alloc_reclaim() {
    let mut without = Simulator::new();
    Boolean::allocate(&mut without, &mut (), true).unwrap();
    Element::allocate(&mut without, &mut (), fp(42)).unwrap();

    let mut with = Simulator::new();
    let mut allocator = Standard::<bool>::new();
    Boolean::allocate(&mut with, &mut allocator, true).unwrap();
    Element::allocate(&mut with, &mut allocator, fp(42)).unwrap();

    assert_eq!(without.num_gates(), 2);
    assert_eq!(with.num_gates(), 1);
}

#[test]
fn test_pool_allocator_multiple_donations() {
    let mut dr = Simulator::new();
    let mut allocator = Standard::<bool>::new();
    Boolean::allocate(&mut dr, &mut allocator, true).unwrap();
    Boolean::allocate(&mut dr, &mut allocator, false).unwrap();
    Boolean::allocate(&mut dr, &mut allocator, true).unwrap();
    Element::allocate(&mut dr, &mut allocator, fp(1)).unwrap();
    Element::allocate(&mut dr, &mut allocator, fp(2)).unwrap();
    Element::allocate(&mut dr, &mut allocator, fp(3)).unwrap();
    assert_eq!(dr.num_gates(), 3);
}

#[test]
fn test_conditional_select() {
    for (cond, expected) in [(true, 2u64), (false, 1u64)] {
        let mut dr = Simulator::new();
        let mut allocator = Standard::<bool>::new();
        let c = Boolean::allocate(&mut dr, &mut (), cond).unwrap();
        let a = Element::allocate(&mut dr, &mut allocator, fp(1)).unwrap();
        let b = Element::allocate(&mut dr, &mut allocator, fp(2)).unwrap();
        let result = c.conditional_select(&mut dr, &a, &b).unwrap();
        assert_eq!(result.value(), fp(expected));
    }
}

#[test]
fn test_conditional_enforce_equal() {
    let mut dr = Simulator::new();
    let mut allocator = Standard::<bool>::new();
    let c = Boolean::allocate(&mut dr, &mut (), true).unwrap();
    let a = Element::allocate(&mut dr, &mut allocator, fp(42)).unwrap();
    let b = Element::allocate(&mut dr, &mut allocator, fp(42)).unwrap();
    dr.reset();
    c.conditional_enforce_equal(&mut dr, &mut allocator, &a, &b).unwrap();
    assert_eq!(dr.num_gates(), 1);
    assert_eq!(dr.num_constraints(), 3);

    let mut dr = Simulator::new();
    let mut allocator = Standard::<bool>::new();
    let c = Boolean::allocate(&mut dr, &mut (), false).unwrap();
    let a = Element::allocate(&mut dr, &mut allocator, fp(1)).unwrap();
    let b = Element::allocate(&mut dr, &mut allocator, fp(2)).unwrap();
    c.conditional_enforce_equal(&mut dr, &mut allocator, &a, &b).unwrap();
}

#[test]
fn conditional_enforce_equal_rejects_unequal() {
    let mut dr = Simulator::new();
    let mut allocator = Standard::<bool>::new();
    let c = Boolean::allocate(&mut dr, &mut (), true).unwrap();
    let a = Element::allocate(&mut dr, &mut allocator, fp(1)).unwrap();
    let b = Element::allocate(&mut dr, &mut allocator, fp(2)).unwrap();
    assert!(c.conditional_enforce_equal(&mut dr, &mut allocator, &a, &b).is_err());
}

#[test]
fn test_multipack() {
    let mut dr = Simulator::new();
    let bits: Vec<Boolean> = (0..1000).map(|i| Boolean::allocate(&mut dr, &mut (), i % 2 == 0).unwrap()).collect();
    let vals = multipack(&mut dr, &bits).unwrap();
    assert_eq!(vals.len(), 4);
    for val in vals {
        assert_eq!(val.value(), val.wire());
    }
}

#[test]
fn test_multipack_vector() {
    let mut dr = Simulator::new();
    let bits: Vec<Boolean> = [false, true, true, false, true]
        .iter()
        .map(|b| Boolean::allocate(&mut dr, &mut (), *b).unwrap())
        .collect();
    let vals = multipack(&mut dr, &bits).unwrap();
    assert_eq!(vals.len(), 1);
    assert_eq!(vals[0].value(), fp(22));
    assert_eq!(vals[0].wire(), fp(22));
}

#[test]
fn test_is_equal_same() {
    let mut dr = Simulator::new();
    let mut allocator = Standard::<bool>::new();
    let a = Element::allocate(&mut dr, &mut allocator, fp(123)).unwrap();
    let b = Element::allocate(&mut dr, &mut allocator, fp(123)).unwrap();
    dr.reset();
    let eq = a.is_equal(&mut dr, &mut allocator, &b).unwrap();
    assert!(eq.value(), "Expected a == b");
    assert_eq!(dr.num_gates(), 2);
    assert_eq!(dr.num_constraints(), 4);
}

#[test]
fn test_is_not_equal() {
    let mut dr = Simulator::new();
    let mut allocator = Standard::<bool>::new();
    let a = Element::allocate(&mut dr, &mut allocator, fp(1)).unwrap();
    let b = Element::allocate(&mut dr, &mut allocator, fp(123)).unwrap();
    dr.reset();
    let eq = a.is_equal(&mut dr, &mut allocator, &b).unwrap();
    assert!(!eq.value(), "Expected a != b");
}

#[test]
fn boolean_and_idempotent_and_complement() {
    for bit in [false, true] {
        let mut dr = Simulator::new();
        let a = Boolean::allocate(&mut dr, &mut (), bit).unwrap();
        assert_eq!(a.and(&mut dr, &a).unwrap().value(), bit);
        let not_a = a.not(&mut dr);
        assert!(!a.and(&mut dr, &not_a).unwrap().value());
    }
}

#[test]
fn test_vector_length_mismatch() {
    let result = FixedVec::<u64, ConstLen<3>>::new(vec![1, 2]);
    match result {
        Err(Error::VectorLengthMismatch { expected, actual }) => {
            assert_eq!(expected, 3);
            assert_eq!(actual, 2);
        }
        _ => panic!("expected VectorLengthMismatch"),
    }
    let ok = FixedVec::<u64, ConstLen<2>>::new(vec![1, 2]).expect("expected error");
    assert_eq!(ok.len(), 2);
}

#[test]
fn fixed_vec_from_fn_and_clone() {
    let v = FixedVec::<u64, ConstLen<4>>::from_fn(|i| (i as u64) * 10);
    assert_eq!(v.as_slice(), &[0, 10, 20, 30]);
    let w = v.clone();
    assert_eq!(w.into_inner(), vec![0, 10, 20, 30]);
    let failing = FixedVec::<u64, ConstLen<4>>::try_from_fn(|i| {
        if i == 2 {
            Err(Error::MalformedEncoding { limit: 7 })
        } else {
            Ok(i as u64)
        }
    });
    assert!(matches!(failing, Err(Error::MalformedEncoding { limit: 7 })));
}

#[test]
fn field_repr_roundtrip() {
    let x = fp(0x1234_5678_9abc_def0);
    assert_eq!(Fp::from_repr(x.to_repr()), Some(x));
    assert_eq!(Fp::from_repr([0xff; 32]), None);
}

#[test]
fn default_simulator_starts_empty() {
    let dr = Simulator::default();
    assert_eq!(dr.num_gates(), 0);
    assert_eq!(dr.num_constraints(), 0);
}
