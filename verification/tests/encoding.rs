use ragu::native::claims::{ky_values, TwoProofKySource, NUM_UNIFIED_CIRCUITS};
use ragu::native::stages::outer_error::ChildKyOutputs;
use ragu::element::Element;
use ragu::encoding::{for_header, CountingBuffer, Encoded};
use ragu::error::Error;
use ragu::field::Fp;
use ragu::header::Suffix;
use ragu::sendable::Sendable;
use ragu::simulator::Simulator;
use ragu::steps::{Rerandomize, Trivial};

const HEADER_SIZE: usize = 4;

fn fp(v: u64) -> Fp {
    Fp::from_u64(v)
}

fn silly_gadget(dr: &mut Simulator) -> Vec<Element> {
    (1u64..=4).map(|n| Element::allocate(dr, &mut (), fp(n)).unwrap()).collect()
}

#[test]
fn test_write() {
    let mut dr = Simulator::new();
    let gadget = silly_gadget(&mut dr);
    // The application suffix 40 maps to the value 42.
    let padded = for_header::<6>(&mut dr, &Suffix::new(40), gadget).unwrap();
    let mut buffer = vec![];
    padded.write(&mut dr, &mut buffer).unwrap();
    assert_eq!(buffer.len(), 6);
    assert_eq!(buffer[0].value(), fp(1));
    assert_eq!(buffer[1].value(), fp(2));
    assert_eq!(buffer[2].value(), fp(3));
    assert_eq!(buffer[3].value(), fp(4));
    assert_eq!(buffer[4].value(), fp(0));
    assert_eq!(buffer[5].value(), fp(42));
}

#[test]
fn test_exceeding_buffer() {
    let mut dr = Simulator::new();
    let gadget = silly_gadget(&mut dr);
    let padded = for_header::<4>(&mut dr, &Suffix::new(40), gadget).unwrap();
    let mut buffer = vec![];
    assert!(padded.write(&mut dr, &mut buffer).is_err());
    assert_eq!(buffer.len(), 3);
}

#[test]
fn counting_buffer_rejects_past_limit() {
    let mut dr = Simulator::new();
    let one = Element::constant(&mut dr, fp(1));
    let mut counting = CountingBuffer::<3>::new(vec![]);
    assert!(counting.write(&one).is_ok());
    assert!(counting.write(&one).is_ok());
    assert_eq!(counting.write(&one), Err(Error::MalformedEncoding { limit: 2 }));
    assert_eq!(counting.written(), 2);
    assert_eq!(counting.into_inner().len(), 2);
}

fn single(dr: &mut Simulator, value: u64) -> Encoded<HEADER_SIZE> {
    Encoded::new(dr, &mut (), &[fp(value)], Suffix::new(100)).expect("encoding should succeed")
}

#[test]
fn encoded_new_produces_header_size_output() {
    let mut dr = Simulator::new();
    let encoded = single(&mut dr, 42);
    let mut buf = vec![];
    encoded.write(&mut dr, &mut buf).expect("write should succeed");
    assert_eq!(buf.len(), HEADER_SIZE);
}

#[test]
fn encoded_new_uniform_produces_header_size_output() {
    let mut dr = Simulator::new();
    let encoded = Encoded::<HEADER_SIZE>::new_uniform(&mut dr, &mut (), &[fp(42)], Suffix::new(100))
        .expect("encoding should succeed");
    let mut buf = vec![];
    encoded.write(&mut dr, &mut buf).expect("write should succeed");
    assert_eq!(buf.len(), HEADER_SIZE);
    assert_eq!(buf[0].value(), fp(42));
    assert_eq!(buf[1].value(), fp(0));
    assert_eq!(buf[3].value(), fp(102));
}

#[test]
fn encoded_as_gadget_returns_inner_value() {
    let mut dr = Simulator::new();
    let encoded = single(&mut dr, 99);
    let gadget = encoded.as_gadget();
    assert_eq!(gadget[0].value(), fp(99));
}

#[test]
fn encoded_write_includes_suffix() {
    let mut dr = Simulator::new();
    let encoded = single(&mut dr, 1);
    let mut buf = vec![];
    encoded.write(&mut dr, &mut buf).expect("write should succeed");
    assert_eq!(buf[HEADER_SIZE - 1].value(), fp(102));
}

#[test]
fn encoded_uniform_different_headers_same_size() {
    let mut dr = Simulator::new();
    let single = Encoded::<HEADER_SIZE>::new_uniform(&mut dr, &mut (), &[fp(1)], Suffix::new(100))
        .expect("single encoding should succeed");
    let pair = Encoded::<HEADER_SIZE>::new_uniform(&mut dr, &mut (), &[fp(2), fp(3)], Suffix::new(101))
        .expect("pair encoding should succeed");
    let trivial = Encoded::<HEADER_SIZE>::new_uniform(&mut dr, &mut (), &[], Suffix::internal(1))
        .expect("trivial encoding should succeed");
    let mut buf_single = vec![];
    let mut buf_pair = vec![];
    let mut buf_trivial = vec![];
    single.write(&mut dr, &mut buf_single).unwrap();
    pair.write(&mut dr, &mut buf_pair).unwrap();
    trivial.write(&mut dr, &mut buf_trivial).unwrap();
    assert_eq!(buf_single.len(), HEADER_SIZE);
    assert_eq!(buf_pair.len(), HEADER_SIZE);
    assert_eq!(buf_trivial.len(), HEADER_SIZE);
}

#[test]
fn encoded_clone_preserves_values() {
    let mut dr = Simulator::new();
    let original = single(&mut dr, 77);
    let cloned = original.clone();
    let mut buf_orig = vec![];
    let mut buf_again = vec![];
    original.write(&mut dr, &mut buf_orig).unwrap();
    cloned.write(&mut dr, &mut buf_again).unwrap();
    assert_eq!(buf_orig.len(), buf_again.len());
    for (a, b) in buf_orig.iter().zip(buf_again.iter()) {
        assert_eq!(a.value(), b.value());
    }
}

#[test]
fn uniform_encoding_rejects_oversized_data() {
    let mut dr = Simulator::new();
    let result = Encoded::<HEADER_SIZE>::new_uniform(&mut dr, &mut (), &[fp(1), fp(2), fp(3), fp(4)], Suffix::new(0));
    assert_eq!(result.err(), Some(Error::MalformedEncoding { limit: HEADER_SIZE - 1 }));
}

#[test]
fn ky_values_follow_claim_order() {
    let mut dr = Simulator::new();
    let e = |dr: &mut Simulator, v: u64| Element::constant(dr, fp(v));
    let left = ChildKyOutputs { application: e(&mut dr, 3), unified: e(&mut dr, 7), unified_bridge: e(&mut dr, 5) };
    let right = ChildKyOutputs { application: e(&mut dr, 4), unified: e(&mut dr, 8), unified_bridge: e(&mut dr, 6) };
    let l = e(&mut dr, 1);
    let r = e(&mut dr, 2);
    let source = TwoProofKySource::new(&mut dr, l, r, &left, &right);
    let values: Vec<Fp> = ky_values(&source, 16).iter().map(|k| k.value()).collect();
    let mut expected: Vec<Fp> = [1u64, 2, 3, 4, 5, 6].iter().map(|v| fp(*v)).collect();
    for _ in 0..NUM_UNIFIED_CIRCUITS {
        expected.push(fp(7));
        expected.push(fp(8));
    }
    expected.push(fp(0));
    expected.push(fp(0));
    assert_eq!(values, expected);
    assert_eq!(ky_values(&source, 3).len(), 3);
}

#[test]
fn sendable_and_steps() {
    let s = Sendable::new(5u32);
    assert_eq!(*s.get(), 5);
    assert_eq!(s.into_inner(), 5);
    let _trivial = Trivial::new();
    let _rerandomize: Rerandomize<u8> = Rerandomize::new();
}
