use ragu::circuits::{Handle, InternalNode, LeafNode, MySimpleCircuit, SquareCircuit};
use ragu::allocator::Standard;
use ragu::element::Element;
use ragu::error::{Error, WitnessError};
use ragu::field::Fp;
use ragu::inverter::Inverter;
use ragu::simulator::Simulator;

fn fp(v: u64) -> Fp {
    Fp::from_u64(v)
}

#[test]
fn simple_circuit_accepts_fifth_power_equal_square() {
    // a = 4, b = 32: 4^5 = 1024 = 32^2.
    let mut dr = Simulator::new();
    let (c, d) = MySimpleCircuit.witness(&mut dr, (fp(4), fp(32))).unwrap();
    assert_eq!(c.value(), fp(36));
    assert_eq!(d.value(), fp(4).sub(&fp(32)));
    assert_eq!(dr.num_gates(), 5);
    assert_eq!(dr.num_constraints(), 9);

    let mut dr = Simulator::new();
    assert_eq!(
        MySimpleCircuit.witness(&mut dr, (fp(4), fp(31))).map(|_| ()),
        Err(Error::InvalidWitness(WitnessError::ConstraintFailed))
    );

    let mut dr = Simulator::new();
    let (c, d) = MySimpleCircuit.instance(&mut dr, (fp(36), fp(7))).unwrap();
    assert_eq!((c.value(), d.value()), (fp(36), fp(7)));
    assert_eq!(dr.num_gates(), 1);
}

#[test]
fn square_circuit_squares_repeatedly() {
    let mut dr = Simulator::new();
    let out = SquareCircuit { times: 3 }.witness(&mut dr, fp(3)).unwrap();
    assert_eq!(out.value(), fp(6561));
    assert_eq!(dr.num_gates(), 4);
    let mut dr = Simulator::new();
    assert_eq!(SquareCircuit { times: 3 }.instance(&mut dr, fp(5)).unwrap().value(), fp(5));
}

#[test]
fn node_headers_encode_one_element() {
    assert_eq!(LeafNode::suffix().get(), 2);
    assert_eq!(InternalNode::suffix().get(), 3);
    let mut dr = Simulator::new();
    let mut allocator = Standard::<bool>::new();
    assert_eq!(LeafNode::encode(&mut dr, &mut allocator, fp(9)).unwrap().value(), fp(9));
    assert_eq!(InternalNode::encode(&mut dr, &mut allocator, fp(10)).unwrap().value(), fp(10));
    assert_eq!(Handle::new(4).index(), 4);
}

#[test]
fn inverter_inverts_differences() {
    let mut dr = Simulator::new();
    let base = Element::constant(&mut dr, fp(10));
    let mut inverter = Inverter::with_base(base);
    let x = Element::constant(&mut dr, fp(3));
    let i0 = inverter.add(&mut dr, &x).unwrap();
    let i1 = inverter.add_constant(&mut dr, fp(8)).unwrap();
    assert_eq!((i0, i1), (0, 1));
    let inverses = inverter.invert(&mut dr).unwrap();
    assert_eq!(inverses[i0].value(), fp(7).invert().unwrap());
    assert_eq!(inverses[i1].value(), fp(2).invert().unwrap());
    assert_eq!(dr.num_gates(), 2);
    assert_eq!(dr.num_constraints(), 4);
}

#[test]
fn inverter_rejects_zero_difference() {
    let mut dr = Simulator::new();
    let base = Element::constant(&mut dr, fp(10));
    let mut inverter = Inverter::with_base(base);
    inverter.add_constant(&mut dr, fp(4)).unwrap();
    inverter.add_constant(&mut dr, fp(10)).unwrap();
    assert!(inverter.invert(&mut dr).is_err());
}
