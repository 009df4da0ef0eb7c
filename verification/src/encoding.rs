//! Fixed-size header encodings.
//!
//! A header is serialized as `[data | zeros | suffix]`: the elements its
//! gadget writes, zero padding up to `HEADER_SIZE - 1` elements, and the
//! header's suffix as the last element. A header whose data does not fit is
//! rejected.
//!
//! A header's gadget is represented by the elements it writes, in order.

use vstd::prelude::*;

use crate::allocator::Allocator;
use crate::element::{all_consistent, allocate_all, vals, Element};
use crate::error::Error;
use crate::field::Fp;
use crate::header::{suffix_value, Suffix};
use crate::simulator::Simulator;
use crate::vec::{ConstLen, FixedVec};

verus! {

/// A buffer that forwards writes to `inner` and rejects any beyond the
/// first `HEADER_SIZE - 1`, which leaves room for the suffix.
pub struct CountingBuffer<const HEADER_SIZE: usize> {
    written: usize,
    inner: Vec<Element>,
}

impl<const HEADER_SIZE: usize> CountingBuffer<HEADER_SIZE> {
    /// The number of elements written through this buffer.
    pub closed spec fn count(&self) -> nat {
        self.written as nat
    }

    /// The contents of the underlying buffer.
    pub closed spec fn contents(&self) -> Seq<Element> {
        self.inner@
    }

    /// A counting buffer over `inner`, with nothing written yet.
    pub fn new(inner: Vec<Element>) -> (r: CountingBuffer<HEADER_SIZE>)
        ensures
            r.count() == 0,
            r.contents() == inner@,
    {
        CountingBuffer { written: 0, inner }
    }

    /// The number of elements written so far.
    pub fn written(&self) -> (r: usize)
        ensures
            r == self.count(),
    {
        self.written
    }

    /// Writes `value`, unless `HEADER_SIZE - 1` elements were written
    /// already.
    pub fn write(&mut self, value: &Element) -> (r: Result<(), Error>)
        requires
            HEADER_SIZE > 0,
        ensures
            r is Ok <==> old(self).count() < HEADER_SIZE - 1,
            r is Ok ==> final(self).contents() == old(self).contents().push(*value) && final(self).count()
                == old(self).count() + 1,
            r is Err ==> *final(self) == *old(self) && r == Err::<(), Error>(Error::MalformedEncoding { limit: (HEADER_SIZE - 1) as usize }),
    {
        if self.written >= HEADER_SIZE - 1 {
            return Err(Error::MalformedEncoding { limit: HEADER_SIZE - 1 });
        }
        self.inner.push(*value);
        self.written = self.written + 1;
        Ok(())
    }

    /// The underlying buffer.
    pub fn into_inner(self) -> (r: Vec<Element>)
        ensures
            r@ == self.contents(),
    {
        self.inner
    }
}

/// Whether `s` extends `prefix` with `content` and then zero elements up to
/// `len` elements in all.
pub open spec fn padded_by_zeros(s: Seq<Element>, prefix: Seq<Element>, content: Seq<Element>, len: nat) -> bool {
    &&& s.len() == prefix.len() + len
    &&& content.len() <= len
    &&& s.take((prefix.len() + content.len()) as int) == prefix + content
    &&& forall|i: int|
        prefix.len() + content.len() <= i < s.len() ==> (#[trigger] s[i]).val() == 0 && s[i].consistent()
}

/// Writes `content` followed by zeros up to `HEADER_SIZE - 1` elements into
/// `buf`. Fails, after writing the first `HEADER_SIZE - 1` elements, when
/// `content` does not fit.
pub fn write_padded_content<const HEADER_SIZE: usize>(
    dr: &mut Simulator,
    content: &[Element],
    buf: &mut Vec<Element>,
) -> (r: Result<(), Error>)
    requires
        HEADER_SIZE > 0,
    ensures
        r is Ok <==> content@.len() <= HEADER_SIZE - 1,
        r is Ok ==> padded_by_zeros(final(buf)@, old(buf)@, content@, (HEADER_SIZE - 1) as nat),
        r is Err ==> final(buf)@ == old(buf)@ + content@.take(HEADER_SIZE - 1) && r == Err::<(), Error>(
            Error::MalformedEncoding { limit: (HEADER_SIZE - 1) as usize },
        ),
        *final(dr) == *old(dr),
{
    let ghost prefix = old(buf)@;
    let mut inner: Vec<Element> = Vec::new();
    core::mem::swap(&mut inner, buf);
    let mut counting = CountingBuffer::<HEADER_SIZE>::new(inner);
    let mut i: usize = 0;
    while i < content.len()
        invariant
            HEADER_SIZE > 0,
            prefix == old(buf)@,
            *dr == *old(dr),
            i <= content@.len(),
            i <= HEADER_SIZE - 1,
            counting.count() == i,
            counting.contents() == prefix + content@.take(i as int),
        decreases content@.len() - i,
    {
        match counting.write(&content[i]) {
            Ok(()) => {},
            Err(e) => {
                proof {
                    assert(i == HEADER_SIZE - 1);
                }
                *buf = counting.into_inner();
                return Err(e);
            },
        }
        proof {
            assert(content@.take(i + 1) == content@.take(i as int).push(content@[i as int]));
        }
        i = i + 1;
    }
    proof {
        assert(content@.take(content@.len() as int) == content@);
    }
    while counting.written() < HEADER_SIZE - 1
        invariant
            HEADER_SIZE > 0,
            prefix == old(buf)@,
            *dr == *old(dr),
            content@.len() <= counting.count() <= HEADER_SIZE - 1,
            counting.contents().len() == prefix.len() + counting.count(),
            counting.contents().take((prefix.len() + content@.len()) as int) == prefix + content@,
            forall|j: int|
                prefix.len() + content@.len() <= j < counting.contents().len() ==> (
                #[trigger] counting.contents()[j]).val() == 0 && counting.contents()[j].consistent(),
        decreases HEADER_SIZE - 1 - counting.count(),
    {
        let zero = Element::zero(dr);
        let ghost before = counting.contents();
        match counting.write(&zero) {
            Ok(()) => {},
            Err(e) => {
                proof {
                    assert(false);
                }
                *buf = counting.into_inner();
                return Err(e);
            },
        }
        proof {
            assert(counting.contents().take((prefix.len() + content@.len()) as int) =~= before.take(
                (prefix.len() + content@.len()) as int,
            ));
        }
    }
    *buf = counting.into_inner();
    Ok(())
}

/// A header's content padded to `HEADER_SIZE` elements, with its suffix as
/// the last.
pub struct Padded<const HEADER_SIZE: usize> {
    content: Vec<Element>,
    suffix: Element,
}

impl<const HEADER_SIZE: usize> Padded<HEADER_SIZE> {
    /// The elements the header's gadget writes.
    pub closed spec fn content_spec(&self) -> Seq<Element> {
        self.content@
    }

    /// The suffix element.
    pub closed spec fn suffix_spec(&self) -> Element {
        self.suffix
    }

    /// Writes `[content | zeros | suffix]` into `buf`; fails when the
    /// content exceeds `HEADER_SIZE - 1` elements.
    pub fn write(&self, dr: &mut Simulator, buf: &mut Vec<Element>) -> (r: Result<(), Error>)
        requires
            HEADER_SIZE > 0,
        ensures
            r is Ok <==> self.content_spec().len() <= HEADER_SIZE - 1,
            r is Ok ==> {
                &&& padded_by_zeros(
                    final(buf)@.drop_last(),
                    old(buf)@,
                    self.content_spec(),
                    (HEADER_SIZE - 1) as nat,
                )
                &&& final(buf)@.len() == old(buf)@.len() + HEADER_SIZE
                &&& final(buf)@.last() == self.suffix_spec()
            },
            r is Err ==> r == Err::<(), Error>(Error::MalformedEncoding { limit: (HEADER_SIZE - 1) as usize }),
            *final(dr) == *old(dr),
    {
        write_padded_content::<HEADER_SIZE>(dr, self.content.as_slice(), buf)?;
        let ghost before = buf@;
        buf.push(self.suffix);
        proof {
            assert(buf@.drop_last() == before);
        }
        Ok(())
    }
}

/// The padded gadget of a header: its content, and the constant element of
/// its suffix's value.
pub fn for_header<const HEADER_SIZE: usize>(dr: &mut Simulator, suffix: &Suffix, content: Vec<Element>) -> (r:
    Result<Padded<HEADER_SIZE>, Error>)
    requires
        suffix_value(suffix.kind()) <= u64::MAX,
        suffix_value(suffix.kind()) <= usize::MAX,
    ensures
        r matches Ok(padded) && {
            &&& padded.content_spec() == content@
            &&& padded.suffix_spec().val() == suffix_value(suffix.kind())
            &&& padded.suffix_spec().consistent()
        },
        *final(dr) == *old(dr),
{
    let value = suffix.get();
    let suffix_element = Element::constant(dr, Fp::from_u64(value));
    Ok(Padded { content, suffix: suffix_element })
}

/// The values of a header's uniform encoding: its data, zeros up to
/// `header_size - 1` values, and its suffix's value.
pub open spec fn uniform_values(data: Seq<nat>, header_size: nat, suffix: nat) -> Seq<nat> {
    data + Seq::new((header_size - 1 - data.len()) as nat, |i: int| 0nat) + seq![suffix]
}

/// How a header is encoded within a step.
pub enum EncodedInner<const HEADER_SIZE: usize> {
    /// The header's gadget, by the elements it writes, and its suffix;
    /// padded when written.
    Gadget { content: Vec<Element>, suffix: Suffix },
    /// The header pre-serialized into exactly `HEADER_SIZE` elements, so
    /// that every header type yields the same circuit.
    Uniform(FixedVec<Element, ConstLen<HEADER_SIZE>>),
}

/// The result of encoding a header within a step.
pub struct Encoded<const HEADER_SIZE: usize>(pub EncodedInner<HEADER_SIZE>);

impl<const HEADER_SIZE: usize> Encoded<HEADER_SIZE> {
    /// An encoding that keeps the header's gadget.
    pub fn from_gadget(content: Vec<Element>, suffix: Suffix) -> (r: Encoded<HEADER_SIZE>)
        ensures
            r.0 matches EncodedInner::Gadget { content: c, suffix: s } && c@ == content@ && s == suffix,
    {
        Encoded(EncodedInner::Gadget { content, suffix })
    }

    /// The elements of the header's gadget; the encoding must keep the
    /// gadget.
    pub fn as_gadget(&self) -> (r: &[Element])
        requires
            self.0 is Gadget,
        ensures
            self.0 matches EncodedInner::Gadget { content, .. } && r@ == content@,
    {
        match &self.0 {
            EncodedInner::Gadget { content, .. } => content.as_slice(),
            EncodedInner::Uniform(elements) => {
                proof {
                    assert(false);
                }
                elements.as_slice()
            },
        }
    }

    /// Encodes a header whose gadget allocates each value of `data` with
    /// `allocator`, keeping that gadget.
    pub fn new<A: Allocator>(dr: &mut Simulator, allocator: &mut A, data: &[Fp], suffix: Suffix) -> (r: Result<
        Encoded<HEADER_SIZE>,
        Error,
    >)
        requires
            old(dr).room(data@.len(), 0),
        ensures
            old(allocator).reliable() ==> r is Ok && final(allocator).reliable(),
            r matches Ok(e) ==> {
                &&& e.0 matches EncodedInner::Gadget { content, suffix: s } && s == suffix && vals(content@)
                    == data@.map_values(|f: Fp| f@) && all_consistent(content@)
                &&& old(dr).gates() <= final(dr).gates() <= old(dr).gates() + data@.len()
                &&& final(dr).constraints() == old(dr).constraints()
            },
    {
        let content = allocate_all(dr, allocator, data)?;
        Ok(Encoded::from_gadget(content, suffix))
    }

    /// Encodes a header uniformly: its data padded to `HEADER_SIZE - 1`
    /// values, then its suffix, each value allocated with `allocator`. Fails
    /// when the data does not fit.
    pub fn new_uniform<A: Allocator>(dr: &mut Simulator, allocator: &mut A, data: &[Fp], suffix: Suffix) -> (r:
        Result<Encoded<HEADER_SIZE>, Error>)
        requires
            HEADER_SIZE > 0,
            suffix_value(suffix.kind()) <= u64::MAX,
            suffix_value(suffix.kind()) <= usize::MAX,
            old(dr).room(HEADER_SIZE as nat, 0),
        ensures
            data@.len() > HEADER_SIZE - 1 ==> r == Err::<Encoded<HEADER_SIZE>, Error>(Error::MalformedEncoding { limit: (HEADER_SIZE - 1) as usize }),
            old(allocator).reliable() && data@.len() <= HEADER_SIZE - 1 ==> r is Ok && final(allocator).reliable(),
            r matches Ok(e) ==> e.0 matches EncodedInner::Uniform(elements) && vals(elements@) == uniform_values(
                data@.map_values(|f: Fp| f@),
                HEADER_SIZE as nat,
                suffix_value(suffix.kind()),
            ) && all_consistent(elements@),
    {
        if data.len() > HEADER_SIZE - 1 {
            return Err(Error::MalformedEncoding { limit: HEADER_SIZE - 1 });
        }
        let mut values: Vec<Fp> = Vec::new();
        let mut i: usize = 0;
        while i < data.len()
            invariant
                i <= data@.len(),
                values@ == data@.take(i as int),
            decreases data@.len() - i,
        {
            values.push(data[i]);
            i = i + 1;
            proof {
                assert(values@ =~= data@.take(i as int));
            }
        }
        while values.len() < HEADER_SIZE - 1
            invariant
                data@.len() <= values@.len() <= HEADER_SIZE - 1,
                values@.take(data@.len() as int) == data@,
                forall|j: int| data@.len() <= j < values@.len() ==> (#[trigger] values@[j])@ == 0,
            decreases HEADER_SIZE - 1 - values@.len(),
        {
            let ghost before = values@;
            values.push(Fp::from_u64(0));
            proof {
                assert(values@.take(data@.len() as int) =~= before.take(data@.len() as int));
            }
        }
        values.push(Fp::from_u64(suffix.get()));
        let ghost expected = uniform_values(data@.map_values(|f: Fp| f@), HEADER_SIZE as nat, suffix_value(suffix.kind()));
        proof {
            assert forall|j: int| 0 <= j < values@.len() implies (#[trigger] values@[j])@ == expected[j] by {
                if j < data@.len() {
                    assert(values@.take(data@.len() as int)[j] == values@[j]);
                }
            }
            assert(values@.map_values(|f: Fp| f@) =~= expected);
        }
        let raw = allocate_all(dr, allocator, values.as_slice())?;
        match FixedVec::<Element, ConstLen<HEADER_SIZE>>::new(raw) {
            Ok(elements) => Ok(Encoded(EncodedInner::Uniform(elements))),
            Err(e) => {
                proof {
                    assert(false);
                }
                Err(e)
            },
        }
    }

    /// Writes the encoding into `buf`: the padded gadget, or the uniform
    /// elements as they are.
    pub fn write(self, dr: &mut Simulator, buf: &mut Vec<Element>) -> (r: Result<(), Error>)
        requires
            HEADER_SIZE > 0,
            self.0 matches EncodedInner::Gadget { suffix, .. } ==> suffix_value(suffix.kind()) <= u64::MAX
                && suffix_value(suffix.kind()) <= usize::MAX,
        ensures
            match self.0 {
                EncodedInner::Gadget { content, suffix } => {
                    &&& (r is Ok <==> content@.len() <= HEADER_SIZE - 1)
                    &&& r is Ok ==> {
                        &&& padded_by_zeros(final(buf)@.drop_last(), old(buf)@, content@, (HEADER_SIZE - 1) as nat)
                        &&& final(buf)@.len() == old(buf)@.len() + HEADER_SIZE
                        &&& final(buf)@.last().val() == suffix_value(suffix.kind())
                    }
                },
                EncodedInner::Uniform(elements) => r is Ok && final(buf)@ == old(buf)@ + elements@,
            },
            *final(dr) == *old(dr),
    {
        match self.0 {
            EncodedInner::Gadget { content, suffix } => {
                let padded = for_header::<HEADER_SIZE>(dr, &suffix, content)?;
                padded.write(dr, buf)
            },
            EncodedInner::Uniform(elements) => {
                let mut items = elements.into_inner();
                buf.append(&mut items);
                Ok(())
            },
        }
    }
}

impl<const HEADER_SIZE: usize> Clone for Encoded<HEADER_SIZE> {
    fn clone(&self) -> (r: Encoded<HEADER_SIZE>)
        ensures
            match (self.0, r.0) {
                (EncodedInner::Gadget { content: a, suffix: s }, EncodedInner::Gadget { content: b, suffix: t }) => a@
                    == b@ && s == t,
                (EncodedInner::Uniform(a), EncodedInner::Uniform(b)) => a@ == b@,
                _ => false,
            },
    {
        match &self.0 {
            EncodedInner::Gadget { content, suffix } => {
                let mut copy: Vec<Element> = Vec::new();
                let mut i: usize = 0;
                while i < content.len()
                    invariant
                        i <= content@.len(),
                        copy@ == content@.take(i as int),
                    decreases content@.len() - i,
                {
                    copy.push(content[i]);
                    i = i + 1;
                    proof {
                        assert(copy@ =~= content@.take(i as int));
                    }
                }
                proof {
                    assert(copy@ =~= content@);
                }
                Encoded(EncodedInner::Gadget { content: copy, suffix: *suffix })
            },
            EncodedInner::Uniform(elements) => Encoded(EncodedInner::Uniform(elements.clone())),
        }
    }
}

/// The two encodings of a header agree: what writing the gadget encoding of
/// a header appends to a buffer carries exactly the values of its uniform
/// encoding, `[data | zeros | suffix]`.
pub proof fn lemma_encodings_agree(buf: Seq<Element>, prefix: Seq<Element>, content: Seq<Element>, header_size: nat, suffix: nat)
    requires
        header_size > 0,
        buf.len() == prefix.len() + header_size,
        padded_by_zeros(buf.drop_last(), prefix, content, (header_size - 1) as nat),
        buf.last().val() == suffix,
    ensures
        content.len() <= header_size - 1,
        vals(buf.skip(prefix.len() as int)) == uniform_values(vals(content), header_size, suffix),
{
    let s = buf.drop_last();
    let p = prefix.len() as int;
    let c = content.len() as int;
    assert(s.take(p + c).len() == p + c);
    let expected = uniform_values(vals(content), header_size, suffix);
    let got = vals(buf.skip(p));
    assert(got.len() == expected.len());
    assert forall|i: int| 0 <= i < got.len() implies got[i] == expected[i] by {
        if i < c {
            assert(s.take(p + c)[p + i] == (prefix + content)[p + i]);
            assert(buf[p + i] == s[p + i]);
        } else if i < header_size - 1 {
            assert(buf[p + i] == s[p + i]);
            assert(s[p + i].val() == 0);
        } else {
            assert(buf[p + i] == buf.last());
        }
    }
    assert(got =~= expected);
}

} // verus!
