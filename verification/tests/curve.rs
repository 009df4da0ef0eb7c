use ff::{Field, PrimeField, WithSmallOrderMulGroup};
use group::prime::PrimeCurveAffine;
use group::{Curve, Group};
use pasta_curves::arithmetic::{CurveAffine, CurveExt};
use pasta_curves::{Ep, EpAffine, Fq};
use ragu::allocator::Standard;
use ragu::element::Element;
use ragu::endoscalar::{extract_endoscalar, lift_endoscalar, Endoscalar};
use ragu::error::Error;
use ragu::field::Fp;
use ragu::point::Point;
use ragu::simulator::Simulator;

fn random_fp() -> Fp {
    let a = Fp::from_u128(rand::random::<u128>());
    let b = Fp::from_u128(rand::random::<u128>());
    a.mul(&Fp::from_u128(u128::MAX)).add(&b)
}

fn to_pasta(x: &Fp) -> pasta_curves::Fp {
    pasta_curves::Fp::from_repr(x.to_repr()).unwrap()
}

/// Algorithm 1 of [BGH19] on native curve points.
fn scale_native(value: u128, p: &EpAffine) -> EpAffine {
    let p = p.to_curve();
    let mut acc = (p.endo() + p).double();
    for i in 0..64 {
        let bits = value >> (i << 1);
        let mut s = p;
        if bits & 0b01 != 0 {
            s = -s;
        }
        if bits & 0b10 != 0 {
            s = s.endo();
        }
        acc = (acc + s) + acc;
    }
    acc.to_affine()
}

/// Algorithm 2 of [BGH19] in the Pallas scalar field.
fn lift_native_fq(value: u128) -> Fq {
    let mut acc = (Fq::ZETA + Fq::ONE).double();
    for i in 0..64 {
        let bits = value >> (i << 1);
        let mut tmp = Fq::ONE;
        if bits & 0b01 != 0 {
            tmp = -tmp;
        }
        if bits & 0b10 != 0 {
            tmp *= Fq::ZETA;
        }
        acc = acc.double() + tmp;
    }
    acc
}

fn allocate_point(point: &EpAffine) -> Result<Simulator, Error> {
    let mut dr = Simulator::new();
    Point::allocate(&mut dr, point)?;
    Ok(dr)
}

#[test]
fn test_point_alloc() {
    let dr = allocate_point(&EpAffine::generator()).unwrap();
    assert_eq!(dr.num_gates(), 3);
    assert_eq!(dr.num_constraints(), 5);
    assert!(allocate_point(&EpAffine::identity()).is_err());
}

#[test]
fn test_point_double() {
    let point = EpAffine::generator();
    let mut dr = Simulator::new();
    let p = Point::allocate(&mut dr, &point).unwrap();
    dr.reset();
    let q = p.double(&mut dr).unwrap();
    assert_eq!(q.value(), point.to_curve().double().to_affine());
    assert_eq!(dr.num_gates(), 4);
    assert_eq!(dr.num_constraints(), 8);
}

fn add_points() -> Vec<EpAffine> {
    let generator = EpAffine::generator();
    let g = generator.to_curve();
    vec![
        generator,
        -generator,
        g.endo().to_affine(),
        (-g.endo()).to_affine(),
        g.double().to_affine(),
        (-g.double()).to_affine(),
        g.double().endo().to_affine(),
    ]
}

#[test]
fn test_add_incomplete() {
    let points = add_points();
    for p in &points {
        for q in &points {
            let mut dr = Simulator::new();
            let p_gadget = Point::allocate(&mut dr, p).unwrap();
            let q_gadget = Point::allocate(&mut dr, q).unwrap();
            dr.reset();
            let r = p_gadget.add_incomplete(&mut dr, &q_gadget);
            if p.coordinates().unwrap().x() == q.coordinates().unwrap().x() {
                assert!(r.is_err());
            } else {
                let r = r.unwrap();
                assert_eq!(r.value(), (p.to_curve() + q.to_curve()).to_affine());
                assert_eq!(dr.num_gates(), 3);
                assert_eq!(dr.num_constraints(), 6);
            }
        }
    }
}

#[test]
fn add_incomplete_tracked_accumulates_differences() {
    let points = add_points();
    let mut dr = Simulator::new();
    let p = Point::allocate(&mut dr, &points[0]).unwrap();
    let q = Point::allocate(&mut dr, &points[4]).unwrap();
    let mut nonzero = Element::one();
    dr.reset();
    let r = p.add_incomplete_tracked(&mut dr, &q, &mut nonzero).unwrap();
    assert_eq!(r.value(), (points[0].to_curve() + points[4].to_curve()).to_affine());
    let px = *points[0].coordinates().unwrap().x();
    let qx = *points[4].coordinates().unwrap().x();
    assert_eq!(to_pasta(&nonzero.value()), qx - px);
    assert_eq!(dr.num_gates(), 4);
}

#[test]
fn test_double_and_add_incomplete() {
    let generator = EpAffine::generator();
    let g = generator.to_curve();
    let points: Vec<EpAffine> = vec![
        generator,
        g.double().to_affine(),
        -generator,
        (-g.double()).to_affine(),
        (-g.double().double()).to_affine(),
        generator,
        g.endo().to_affine(),
        (-g.endo()).to_affine(),
    ];
    for p in &points {
        for q in &points {
            let mut dr = Simulator::new();
            let p_gadget = Point::allocate(&mut dr, p).unwrap();
            let q_gadget = Point::allocate(&mut dr, q).unwrap();
            dr.reset();
            let r = p_gadget.double_and_add_incomplete(&mut dr, &q_gadget);
            let expected = p.to_curve().double() + q.to_curve();
            if p.coordinates().unwrap().x() == q.coordinates().unwrap().x() || bool::from(expected.is_identity()) {
                assert!(r.is_err());
            } else {
                let r = r.unwrap();
                assert_eq!(r.value(), expected.to_affine());
                assert_eq!(dr.num_gates(), 5);
                assert_eq!(dr.num_constraints(), 10);
            }
        }
    }
}

#[test]
fn point_negate_and_endo() {
    let point = EpAffine::generator();
    let mut dr = Simulator::new();
    let p = Point::allocate(&mut dr, &point).unwrap();
    assert_eq!(p.negate(&mut dr).value(), -point);
    assert_eq!(p.endo(&mut dr).value(), point.to_curve().endo().to_affine());
    let c = Point::constant(&mut dr, &point).unwrap();
    assert_eq!(c.value(), point);
    assert!(Point::constant(&mut dr, &EpAffine::identity()).is_err());
    p.enforce_equal(&mut dr, &c).unwrap();
    p.enforce_consistent(&mut dr).unwrap();
}

#[test]
fn test_endoscalar_lift() {
    for _ in 0..4 {
        let r: u128 = rand::random();
        let expected = lift_endoscalar(r);
        let mut dr = Simulator::new();
        let e = Endoscalar::allocate(&mut dr, r).unwrap();
        let s = e.lift(&mut dr).unwrap();
        assert_eq!(s.value(), expected);
    }
}

#[test]
fn lift_endoscalar_of_zero() {
    // With no bit set every pair contributes 1: acc = 2^64 (2 zeta + 2) + 2^64 - 1.
    let two = Fp::from_u64(2);
    let mut acc = Fp::zeta().add(&Fp::from_u64(1)).mul(&two);
    for _ in 0..64 {
        acc = acc.add(&acc).add(&Fp::from_u64(1));
    }
    assert_eq!(lift_endoscalar(0), acc);
}

#[test]
fn test_endoscaling() {
    let p = EpAffine::generator();
    let r: u128 = rand::random();
    let expected = scale_native(r, &p);
    let mut dr = Simulator::new();
    let point = Point::allocate(&mut dr, &p).unwrap();
    let e = Endoscalar::allocate(&mut dr, r).unwrap();
    dr.reset();
    assert_eq!(e.group_scale(&mut dr, &point).unwrap().value(), expected);
    assert_eq!(dr.num_gates(), 7 * (1 + 64));
}

#[test]
fn test_endoscaling_consistency() {
    let p = EpAffine::generator();
    let value = 206786806484900909362154774549736492353u128;
    let scaled = scale_native(value, &p);
    let expected: EpAffine = (p * lift_native_fq(value)).into();
    assert_eq!(scaled, expected);

    let mut dr = Simulator::new();
    let point = Point::allocate(&mut dr, &p).unwrap();
    let e = Endoscalar::allocate(&mut dr, value).unwrap();
    assert_eq!(e.group_scale(&mut dr, &point).unwrap().value(), expected);
}

#[test]
fn test_extract() {
    let p = EpAffine::generator();
    let r = random_fp();
    let extracted = extract_endoscalar(r);

    let mut dr = Simulator::new();
    let point = Point::allocate(&mut dr, &p).unwrap();
    let mut allocator = Standard::<bool>::new();
    let elem = Element::allocate(&mut dr, &mut allocator, r).unwrap();
    let mine = Endoscalar::extract(&mut dr, &mut (), elem).unwrap();
    let allocated = Endoscalar::allocate(&mut dr, extracted).unwrap();
    assert_eq!(mine.value(), allocated.value());

    let a = mine.group_scale(&mut dr, &point).unwrap();
    let b = allocated.group_scale(&mut dr, &point).unwrap();
    assert_eq!(a.value(), b.value());
}

#[test]
fn extract_bits_follow_quadratic_residuosity() {
    let r = random_fp();
    let extracted = extract_endoscalar(r);
    for i in 0..128u64 {
        let v = to_pasta(&r) + pasta_curves::Fp::from(i);
        let is_square = bool::from(v.sqrt().is_some());
        assert_eq!((extracted >> i) & 1 == 1, is_square);
    }
    let mut dr = Simulator::new();
    let elem = Element::constant(&mut dr, r);
    dr.reset();
    Endoscalar::extract(&mut dr, &mut (), elem).unwrap();
    assert_eq!(dr.num_gates(), 384);
    assert_eq!(dr.num_constraints(), 768);
}

#[test]
fn endoscalar_bits_match_value() {
    let value: u128 = 0b1011;
    let mut dr = Simulator::new();
    let e = Endoscalar::allocate(&mut dr, value).unwrap();
    let bits = e.bits();
    assert_eq!(bits.len(), 128);
    assert!(bits[0].value() && bits[1].value() && !bits[2].value() && bits[3].value());
    assert!(bits[4..].iter().all(|b| !b.value()));
    assert_eq!(dr.num_gates(), 128);
}

#[test]
fn sqrt_alt_gives_a_root_of_the_element_or_of_its_root_of_unity_multiple() {
    let four = Fp::from_u64(4);
    let (is_square, root) = four.sqrt_alt();
    assert!(is_square);
    assert_eq!(root.mul(&root), four);

    let five = Fp::from_u64(5);
    let (is_square, root) = five.sqrt_alt();
    assert!(!is_square);
    let expected = pasta_curves::Fp::ROOT_OF_UNITY * pasta_curves::Fp::from(5u64);
    assert_eq!(to_pasta(&root.mul(&root)), expected);
    assert!(five.sqrt().is_none());

    // 7 is not a square, so 5 * 7 is.
    let seven = Fp::from_u64(7);
    assert!(!seven.sqrt_alt().0);
    let root = seven.mul(&five).sqrt().unwrap();
    assert_eq!(root.mul(&root), Fp::from_u64(35));
}
