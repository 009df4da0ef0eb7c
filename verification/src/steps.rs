//! The internal steps of the recursion engine: the trivial step, which
//! produces a proof with the trivial header, and rerandomization, which
//! folds any proof with a trivial one to produce the same header.

use core::marker::PhantomData;
use vstd::prelude::*;

use crate::allocator::{Allocator, Standard};
use crate::element::{all_consistent, vals};
use crate::encoding::{uniform_values, Encoded, EncodedInner};
use crate::error::Error;
use crate::field::Fp;
use crate::header::{suffix_value, HeaderSuffix, Suffix};
use crate::simulator::Simulator;

verus! {

/// The internal step that produces a valid proof with the trivial header.
#[derive(Clone, Copy, Debug)]
pub struct Trivial;

/// A copy of `values`.
fn copy_values(values: &Vec<Fp>) -> (r: Vec<Fp>)
    ensures
        r@ == values@,
{
    let mut out: Vec<Fp> = Vec::new();
    let mut i: usize = 0;
    while i < values.len()
        invariant
            i <= values@.len(),
            out@ == values@.take(i as int),
        decreases values@.len() - i,
    {
        out.push(values[i]);
        i = i + 1;
        proof {
            assert(out@ =~= values@.take(i as int));
        }
    }
    proof {
        assert(out@ =~= values@);
    }
    out
}

/// Whether `e` keeps the gadget of the trivial header: no elements, and
/// the trivial header's suffix.
pub open spec fn is_trivial_encoding<const HEADER_SIZE: usize>(e: Encoded<HEADER_SIZE>) -> bool {
    e.0 matches EncodedInner::Gadget { content, suffix } && content@.len() == 0 && suffix.kind()
        == HeaderSuffix::Internal(1)
}

impl Trivial {
    /// The trivial step.
    pub fn new() -> (r: Trivial)
        ensures
            r == Trivial,
    {
        Trivial
    }

    /// The step's encodings of its two trivial inputs and its trivial
    /// output; the trivial header encodes no data, so nothing is allocated.
    pub fn witness<const HEADER_SIZE: usize>(&self, dr: &mut Simulator) -> (r: Result<
        (Encoded<HEADER_SIZE>, Encoded<HEADER_SIZE>, Encoded<HEADER_SIZE>),
        Error,
    >)
        ensures
            r matches Ok((left, right, output)) && {
                &&& is_trivial_encoding(left)
                &&& is_trivial_encoding(right)
                &&& is_trivial_encoding(output)
                &&& final(dr).gates() == old(dr).gates()
                &&& final(dr).constraints() == old(dr).constraints()
            },
    {
        let allocator = &mut Standard::<bool>::new();
        let nothing: Vec<Fp> = Vec::new();
        proof {
            dr.lemma_room_zero();
            assert(allocator.reliable());
            assert(nothing@.map_values(|f: Fp| f@).len() == 0);
        }
        let left = Encoded::new(dr, allocator, nothing.as_slice(), Suffix::internal(1))?;
        proof {
            dr.lemma_room_zero();
        }
        let right = Encoded::new(dr, allocator, nothing.as_slice(), Suffix::internal(1))?;
        let output = Encoded::from_gadget(Vec::new(), Suffix::internal(1));
        Ok((left, right, output))
    }
}

/// The internal step that takes a proof with header `H` and the trivial
/// proof, and produces a proof with the same header `H`.
pub struct Rerandomize<H> {
    _marker: PhantomData<H>,
}

impl<H> Rerandomize<H> {
    /// The rerandomization step for header `H`.
    pub fn new() -> Rerandomize<H> {
        Rerandomize { _marker: PhantomData }
    }

    /// The step's encodings: the left input, a header with data `left` and
    /// suffix `suffix`, encoded uniformly so that every header type yields
    /// the same circuit; the trivial right input; and the output, the left
    /// input's encoding again. Returns the left data as the output data,
    /// which is what preserves the header. Fails when `left` does not fit
    /// into `HEADER_SIZE - 1` values.
    pub fn witness<const HEADER_SIZE: usize>(&self, dr: &mut Simulator, left: &Vec<Fp>, suffix: Suffix) -> (r: Result<
        ((Encoded<HEADER_SIZE>, Encoded<HEADER_SIZE>, Encoded<HEADER_SIZE>), Vec<Fp>),
        Error,
    >)
        requires
            HEADER_SIZE > 0,
            suffix_value(suffix.kind()) <= u64::MAX,
            suffix_value(suffix.kind()) <= usize::MAX,
            old(dr).room(HEADER_SIZE as nat, 0),
        ensures
            r is Ok <==> left@.len() <= HEADER_SIZE - 1,
            r matches Ok(((l, right, output), data)) ==> {
                &&& l.0 matches EncodedInner::Uniform(elements) && vals(elements@) == uniform_values(
                    left@.map_values(|f: Fp| f@),
                    HEADER_SIZE as nat,
                    suffix_value(suffix.kind()),
                ) && all_consistent(elements@)
                &&& output.0 matches EncodedInner::Uniform(out) && (l.0 matches EncodedInner::Uniform(elements)
                    && out@ == elements@)
                &&& is_trivial_encoding(right)
                &&& data@ == left@
            },
    {
        let allocator = &mut Standard::<bool>::new();
        let left_encoded = Encoded::<HEADER_SIZE>::new_uniform(dr, allocator, left.as_slice(), suffix)?;
        let nothing: Vec<Fp> = Vec::new();
        proof {
            dr.lemma_room_zero();
            assert(nothing@.map_values(|f: Fp| f@).len() == 0);
        }
        let right = Encoded::new(dr, allocator, nothing.as_slice(), Suffix::internal(1))?;
        let output = left_encoded.clone();
        let data = copy_values(left);
        Ok(((left_encoded, right, output), data))
    }
}

} // verus!
