//! The `k(y)` values of the claims a fuse step verifies, in claim order, and
//! the plain records the fuse stages exchange.

use vstd::prelude::*;

use crate::element::Element;
use crate::native::stages::outer_error::ChildKyOutputs;
use crate::native::{internal_at, InternalCircuitIndex, RxComponent, RxIndex, NUM_INTERNAL};
use crate::simulator::Simulator;

verus! {

/// How many times the unified `k(y)` values repeat in claim order: once per
/// unified circuit.
pub const NUM_UNIFIED_CIRCUITS: usize = 4;

/// A provider of `k(y)` values for claim verification.
pub trait KySource {
    /// The type of a `k(y)` value.
    type Ky: Copy;

    /// The `raw_c` values (the `c` of the AB proofs).
    spec fn raw_c_seq(&self) -> Seq<Self::Ky>;

    /// The `k(y)` values of the application circuits.
    spec fn application_seq(&self) -> Seq<Self::Ky>;

    /// The `k(y)` values of the unified bridges.
    spec fn unified_bridge_seq(&self) -> Seq<Self::Ky>;

    /// The `k(y)` values of the unified circuits, repeated once per unified
    /// circuit in claim order.
    spec fn unified_seq(&self) -> Seq<Self::Ky>;

    /// The value of the stage claims.
    spec fn zero_spec(&self) -> Self::Ky;

    /// The `raw_c` values.
    fn raw_c(&self) -> (r: Vec<Self::Ky>)
        ensures
            r@ == self.raw_c_seq(),
    ;

    /// The application `k(y)` values.
    fn application_ky(&self) -> (r: Vec<Self::Ky>)
        ensures
            r@ == self.application_seq(),
    ;

    /// The unified bridge `k(y)` values.
    fn unified_bridge_ky(&self) -> (r: Vec<Self::Ky>)
        ensures
            r@ == self.unified_bridge_seq(),
    ;

    /// The unified `k(y)` values.
    fn unified_ky(&self) -> (r: Vec<Self::Ky>)
        ensures
            r@ == self.unified_seq(),
    ;

    /// The value of the stage claims.
    fn zero(&self) -> (r: Self::Ky)
        ensures
            r == self.zero_spec(),
    ;
}

/// The `k(y)` values of the circuit claims in claim order: the `raw_c`
/// values, the application values, the unified bridge values, and the
/// unified values once per unified circuit. The stage claims follow, each
/// with the zero value.
pub open spec fn ky_claims<S: KySource>(source: &S) -> Seq<S::Ky> {
    let u = source.unified_seq();
    source.raw_c_seq() + source.application_seq() + source.unified_bridge_seq() + u + u + u + u
}

/// The `k(y)` value of claim `i`.
pub open spec fn ky_at<S: KySource>(source: &S, i: int) -> S::Ky {
    let c = ky_claims(source);
    if i < c.len() {
        c[i]
    } else {
        source.zero_spec()
    }
}

/// Appends the entries of `items` to `out` while `out` holds fewer than
/// `count`.
fn extend_up_to<T: Copy>(out: &mut Vec<T>, items: &Vec<T>, count: usize)
    requires
        old(out)@.len() <= count,
    ensures
        final(out)@.len() == vstd::math::min(count as int, (old(out)@.len() + items@.len()) as int),
        final(out)@ == (old(out)@ + items@).take(final(out)@.len() as int),
{
    let ghost start = out@;
    let mut i: usize = 0;
    while i < items.len() && out.len() < count
        invariant
            i <= items@.len(),
            out@.len() <= count,
            out@.len() == start.len() + i,
            out@ == (start + items@).take(out@.len() as int),
        decreases items@.len() - i,
    {
        out.push(items[i]);
        i = i + 1;
        proof {
            assert(out@ =~= (start + items@).take(out@.len() as int));
        }
    }
}

/// The first `count` `k(y)` values in claim order: the circuit claims
/// followed by zeros for the stage claims.
pub fn ky_values<S: KySource>(source: &S, count: usize) -> (r: Vec<S::Ky>)
    ensures
        r@.len() == count,
        forall|i: int| 0 <= i < count ==> #[trigger] r@[i] == ky_at(source, i),
{
    let mut out: Vec<S::Ky> = Vec::new();
    let raw = source.raw_c();
    extend_up_to(&mut out, &raw, count);
    let app = source.application_ky();
    extend_up_to(&mut out, &app, count);
    let bridge = source.unified_bridge_ky();
    extend_up_to(&mut out, &bridge, count);
    let unified = source.unified_ky();
    let mut k: usize = 0;
    let ghost base = source.raw_c_seq() + source.application_seq() + source.unified_bridge_seq();
    proof {
        assert(out@ == base.take(out@.len() as int));
    }
    while k < NUM_UNIFIED_CIRCUITS
        invariant
            k <= NUM_UNIFIED_CIRCUITS,
            unified@ == source.unified_seq(),
            out@.len() <= count,
            ({
                let full = if k == 0 {
                    base
                } else if k == 1 {
                    base + unified@
                } else if k == 2 {
                    base + unified@ + unified@
                } else if k == 3 {
                    base + unified@ + unified@ + unified@
                } else {
                    base + unified@ + unified@ + unified@ + unified@
                };
                &&& out@.len() == vstd::math::min(count as int, full.len() as int)
                &&& out@ == full.take(out@.len() as int)
            }),
        decreases NUM_UNIFIED_CIRCUITS - k,
    {
        let ghost before = out@;
        extend_up_to(&mut out, &unified, count);
        proof {
            let prev = if k == 0 {
                base
            } else if k == 1 {
                base + unified@
            } else if k == 2 {
                base + unified@ + unified@
            } else {
                base + unified@ + unified@ + unified@
            };
            let next = prev + unified@;
            if before.len() < prev.len() {
                assert(before.len() == count);
            } else {
                assert(before == prev);
            }
            assert(out@ =~= next.take(out@.len() as int));
        }
        k = k + 1;
    }
    let zero = source.zero();
    let ghost claims = ky_claims(source);
    proof {
        assert(claims =~= base + unified@ + unified@ + unified@ + unified@);
    }
    while out.len() < count
        invariant
            out@.len() <= count,
            zero == source.zero_spec(),
            claims == ky_claims(source),
            out@.len() >= vstd::math::min(count as int, claims.len() as int),
            forall|i: int| 0 <= i < out@.len() ==> #[trigger] out@[i] == ky_at(source, i),
        decreases count - out@.len(),
    {
        out.push(zero);
    }
    out
}

/// The `k(y)` sources of a fuse of two proofs.
#[derive(Clone, Copy, Debug)]
pub struct TwoProofKySource {
    pub left_raw_c: Element,
    pub right_raw_c: Element,
    pub left_app: Element,
    pub right_app: Element,
    pub left_bridge: Element,
    pub right_bridge: Element,
    pub left_unified: Element,
    pub right_unified: Element,
    pub zero: Element,
}

impl TwoProofKySource {
    /// A source from the children's `k(y)` outputs and `raw_c` values.
    pub fn new(
        dr: &mut Simulator,
        left_raw_c: Element,
        right_raw_c: Element,
        left_ky: &ChildKyOutputs,
        right_ky: &ChildKyOutputs,
    ) -> (r: TwoProofKySource)
        ensures
            r.left_raw_c == left_raw_c,
            r.right_raw_c == right_raw_c,
            r.left_app == left_ky.application,
            r.right_app == right_ky.application,
            r.left_bridge == left_ky.unified_bridge,
            r.right_bridge == right_ky.unified_bridge,
            r.left_unified == left_ky.unified,
            r.right_unified == right_ky.unified,
            r.zero.val() == 0,
            r.zero.consistent(),
            *final(dr) == *old(dr),
    {
        TwoProofKySource {
            left_raw_c,
            right_raw_c,
            left_app: left_ky.application,
            right_app: right_ky.application,
            left_bridge: left_ky.unified_bridge,
            right_bridge: right_ky.unified_bridge,
            left_unified: left_ky.unified,
            right_unified: right_ky.unified,
            zero: Element::zero(dr),
        }
    }
}

impl KySource for TwoProofKySource {
    type Ky = Element;

    open spec fn raw_c_seq(&self) -> Seq<Element> {
        seq![self.left_raw_c, self.right_raw_c]
    }

    open spec fn application_seq(&self) -> Seq<Element> {
        seq![self.left_app, self.right_app]
    }

    open spec fn unified_bridge_seq(&self) -> Seq<Element> {
        seq![self.left_bridge, self.right_bridge]
    }

    open spec fn unified_seq(&self) -> Seq<Element> {
        seq![self.left_unified, self.right_unified]
    }

    open spec fn zero_spec(&self) -> Element {
        self.zero
    }

    fn raw_c(&self) -> (r: Vec<Element>) {
        vec![self.left_raw_c, self.right_raw_c]
    }

    fn application_ky(&self) -> (r: Vec<Element>) {
        vec![self.left_app, self.right_app]
    }

    fn unified_bridge_ky(&self) -> (r: Vec<Element>) {
        vec![self.left_bridge, self.right_bridge]
    }

    fn unified_ky(&self) -> (r: Vec<Element>) {
        vec![self.left_unified, self.right_unified]
    }

    fn zero(&self) -> (r: Element) {
        self.zero
    }
}

/// A provider of the polynomials (or their evaluations) that claims are
/// built from, one entry per proof for each component.
pub trait Source {
    /// What stands for an `rx` polynomial.
    type Rx: Copy;

    /// What identifies an application circuit.
    type AppCircuitId: Copy;

    /// The entries of `component`, one per proof.
    spec fn rx_seq(&self, component: RxComponent) -> Seq<Self::Rx>;

    /// The application circuits, one per proof.
    spec fn app_seq(&self) -> Seq<Self::AppCircuitId>;

    /// The entries of `component`, one per proof.
    fn rx(&self, component: RxComponent) -> (r: Vec<Self::Rx>)
        ensures
            r@ == self.rx_seq(component),
    ;

    /// The application circuits, one per proof.
    fn app_circuits(&self) -> (r: Vec<Self::AppCircuitId>)
        ensures
            r@ == self.app_seq(),
    ;
}

/// The kind of a revdot claim, which decides its `k(y)` value.
#[derive(Clone, Copy, Debug, PartialEq, Eq, Structural)]
pub enum ClaimKind {
    /// `a` and `b` supplied directly; `k(y) = c`.
    Raw,
    /// An application circuit; `k(y)` is the application's.
    Circuit,
    /// An internal circuit whose trace is the sum of the claim's entries.
    Internal(InternalCircuitIndex),
    /// A stage whose trace is the fold by `z` of the claim's entries;
    /// `k(y) = 0`.
    Bonding(InternalCircuitIndex),
}

/// A revdot claim to process.
pub enum Claim<Rx, App> {
    /// A raw claim with its `a` and `b`.
    Raw(Rx, Rx),
    /// An application circuit claim with the circuit and its trace.
    Circuit(App, Rx),
    /// An internal circuit claim whose trace is the sum of the entries.
    Internal(InternalCircuitIndex, Vec<Rx>),
    /// A bonding claim whose trace is the fold of the entries, one per slot.
    Bonding(InternalCircuitIndex, Vec<Rx>),
}

impl<Rx, App> View for Claim<Rx, App> {
    type V = (ClaimKind, Option<App>, Seq<Rx>);

    /// The kind, the application circuit of a circuit claim, and the entries.
    open spec fn view(&self) -> (ClaimKind, Option<App>, Seq<Rx>) {
        match self {
            Claim::Raw(a, b) => (ClaimKind::Raw, None, seq![*a, *b]),
            Claim::Circuit(app, rx) => (ClaimKind::Circuit, Some(*app), seq![*rx]),
            Claim::Internal(id, rxs) => (ClaimKind::Internal(*id), None, rxs@),
            Claim::Bonding(id, rxs) => (ClaimKind::Bonding(*id), None, rxs@),
        }
    }
}

/// The views of a sequence of claims.
pub open spec fn claim_views<Rx, App>(cs: Seq<Claim<Rx, App>>) -> Seq<(ClaimKind, Option<App>, Seq<Rx>)> {
    cs.map_values(|c: Claim<Rx, App>| c@)
}

/// The components whose entries make up the claims of internal circuit `id`.
pub open spec fn components(id: InternalCircuitIndex) -> Seq<RxComponent> {
    match id {
        InternalCircuitIndex::Hashes1Circuit => seq![
            RxComponent::Rx(RxIndex::Hashes1),
            RxComponent::Rx(RxIndex::Preamble),
            RxComponent::Rx(RxIndex::OuterError),
        ],
        InternalCircuitIndex::Hashes2Circuit => seq![
            RxComponent::Rx(RxIndex::Hashes2),
            RxComponent::Rx(RxIndex::OuterError),
        ],
        InternalCircuitIndex::InnerCollapseCircuit => seq![
            RxComponent::Rx(RxIndex::InnerCollapse),
            RxComponent::Rx(RxIndex::Preamble),
            RxComponent::Rx(RxIndex::InnerError),
            RxComponent::Rx(RxIndex::OuterError),
        ],
        InternalCircuitIndex::OuterCollapseCircuit => seq![
            RxComponent::Rx(RxIndex::OuterCollapse),
            RxComponent::Rx(RxIndex::Preamble),
            RxComponent::Rx(RxIndex::OuterError),
        ],
        InternalCircuitIndex::ComputeVCircuit => seq![
            RxComponent::Rx(RxIndex::ComputeV),
            RxComponent::Rx(RxIndex::Preamble),
            RxComponent::Rx(RxIndex::Query),
            RxComponent::Rx(RxIndex::Eval),
        ],
        InternalCircuitIndex::PreambleStage => seq![RxComponent::Rx(RxIndex::Preamble)],
        InternalCircuitIndex::InnerErrorStage => seq![RxComponent::Rx(RxIndex::InnerError)],
        InternalCircuitIndex::OuterErrorStage => seq![RxComponent::Rx(RxIndex::OuterError)],
        InternalCircuitIndex::QueryStage => seq![RxComponent::Rx(RxIndex::Query)],
        InternalCircuitIndex::EvalStage => seq![RxComponent::Rx(RxIndex::Eval)],
        InternalCircuitIndex::InnerErrorFinalStaged => seq![RxComponent::Rx(RxIndex::InnerCollapse)],
        InternalCircuitIndex::OuterErrorFinalStaged => seq![
            RxComponent::Rx(RxIndex::Hashes1),
            RxComponent::Rx(RxIndex::Hashes2),
            RxComponent::Rx(RxIndex::OuterCollapse),
        ],
        InternalCircuitIndex::EvalFinalStaged => seq![RxComponent::Rx(RxIndex::ComputeV)],
    }
}

/// Whether `id` is a circuit (one claim per proof) rather than a stage (one
/// claim over all proofs).
pub open spec fn is_circuit(id: InternalCircuitIndex) -> bool {
    id.position() < 5
}

/// The components whose entries make up the claims of `id`.
fn claim_components(id: InternalCircuitIndex) -> (r: Vec<RxComponent>)
    ensures
        r@ == components(id),
{
    let r = match id {
        InternalCircuitIndex::Hashes1Circuit => vec![
            RxComponent::Rx(RxIndex::Hashes1),
            RxComponent::Rx(RxIndex::Preamble),
            RxComponent::Rx(RxIndex::OuterError),
        ],
        InternalCircuitIndex::Hashes2Circuit => vec![
            RxComponent::Rx(RxIndex::Hashes2),
            RxComponent::Rx(RxIndex::OuterError),
        ],
        InternalCircuitIndex::InnerCollapseCircuit => vec![
            RxComponent::Rx(RxIndex::InnerCollapse),
            RxComponent::Rx(RxIndex::Preamble),
            RxComponent::Rx(RxIndex::InnerError),
            RxComponent::Rx(RxIndex::OuterError),
        ],
        InternalCircuitIndex::OuterCollapseCircuit => vec![
            RxComponent::Rx(RxIndex::OuterCollapse),
            RxComponent::Rx(RxIndex::Preamble),
            RxComponent::Rx(RxIndex::OuterError),
        ],
        InternalCircuitIndex::ComputeVCircuit => vec![
            RxComponent::Rx(RxIndex::ComputeV),
            RxComponent::Rx(RxIndex::Preamble),
            RxComponent::Rx(RxIndex::Query),
            RxComponent::Rx(RxIndex::Eval),
        ],
        InternalCircuitIndex::PreambleStage => vec![RxComponent::Rx(RxIndex::Preamble)],
        InternalCircuitIndex::InnerErrorStage => vec![RxComponent::Rx(RxIndex::InnerError)],
        InternalCircuitIndex::OuterErrorStage => vec![RxComponent::Rx(RxIndex::OuterError)],
        InternalCircuitIndex::QueryStage => vec![RxComponent::Rx(RxIndex::Query)],
        InternalCircuitIndex::EvalStage => vec![RxComponent::Rx(RxIndex::Eval)],
        InternalCircuitIndex::InnerErrorFinalStaged => vec![RxComponent::Rx(RxIndex::InnerCollapse)],
        InternalCircuitIndex::OuterErrorFinalStaged => vec![
            RxComponent::Rx(RxIndex::Hashes1),
            RxComponent::Rx(RxIndex::Hashes2),
            RxComponent::Rx(RxIndex::OuterCollapse),
        ],
        InternalCircuitIndex::EvalFinalStaged => vec![RxComponent::Rx(RxIndex::ComputeV)],
    };
    proof {
        assert(r@ =~= components(id));
    }
    r
}

/// The number of entries that zipping the entries of `comps` yields: the
/// fewest of any of them.
pub open spec fn zip_len<S: Source>(s: &S, comps: Seq<RxComponent>) -> nat
    decreases comps.len(),
{
    if comps.len() == 0 {
        0
    } else if comps.len() == 1 {
        s.rx_seq(comps[0]).len()
    } else {
        vstd::math::min(zip_len(s, comps.drop_last()) as int, s.rx_seq(comps.last()).len() as int) as nat
    }
}

/// The entries of `comps`, one after the other.
pub open spec fn chained<S: Source>(s: &S, comps: Seq<RxComponent>) -> Seq<S::Rx>
    decreases comps.len(),
{
    if comps.len() == 0 {
        Seq::empty()
    } else {
        chained(s, comps.drop_last()) + s.rx_seq(comps.last())
    }
}

proof fn lemma_zip_len_le<S: Source>(s: &S, comps: Seq<RxComponent>, j: int)
    requires
        0 <= j < comps.len(),
    ensures
        zip_len(s, comps) <= s.rx_seq(comps[j]).len(),
    decreases comps.len(),
{
    if comps.len() > 1 && j < comps.len() - 1 {
        lemma_zip_len_le(s, comps.drop_last(), j);
    }
}

/// The raw claims: one per proof, pairing its `a` and `b`.
pub open spec fn raw_claims<S: Source>(s: &S) -> Seq<(ClaimKind, Option<S::AppCircuitId>, Seq<S::Rx>)> {
    let a = s.rx_seq(RxComponent::AbA);
    let b = s.rx_seq(RxComponent::AbB);
    Seq::new(
        vstd::math::min(a.len() as int, b.len() as int) as nat,
        |i: int| (ClaimKind::Raw, None, seq![a[i], b[i]]),
    )
}

/// The application circuit claims: one per proof.
pub open spec fn app_claims<S: Source>(s: &S) -> Seq<(ClaimKind, Option<S::AppCircuitId>, Seq<S::Rx>)> {
    let ids = s.app_seq();
    let rx = s.rx_seq(RxComponent::Rx(RxIndex::Application));
    Seq::new(
        vstd::math::min(ids.len() as int, rx.len() as int) as nat,
        |i: int| (ClaimKind::Circuit, Some(ids[i]), seq![rx[i]]),
    )
}

/// The claims of internal circuit or stage `id`: for a circuit, one per
/// proof over that proof's entries of its components; for a stage, one
/// over the entries of all proofs.
pub open spec fn internal_claims<S: Source>(s: &S, id: InternalCircuitIndex) -> Seq<
    (ClaimKind, Option<S::AppCircuitId>, Seq<S::Rx>),
> {
    let comps = components(id);
    if is_circuit(id) {
        Seq::new(
            zip_len(s, comps),
            |i: int| (ClaimKind::Internal(id), None, Seq::new(comps.len(), |j: int| s.rx_seq(comps[j])[i])),
        )
    } else {
        seq![(ClaimKind::Bonding(id), None, chained(s, comps))]
    }
}

/// The claims of the first `k` internal circuits in canonical order.
pub open spec fn internal_claims_upto<S: Source>(s: &S, k: nat) -> Seq<
    (ClaimKind, Option<S::AppCircuitId>, Seq<S::Rx>),
>
    decreases k,
{
    if k == 0 {
        Seq::empty()
    } else {
        internal_claims_upto(s, (k - 1) as nat) + internal_claims(s, internal_at((k - 1) as nat))
    }
}

/// All claims of `s` in unified order: the raw claims, the application
/// circuit claims, then the claims of each internal circuit and stage in
/// canonical order; within a kind, the proofs in order.
pub open spec fn build_claims<S: Source>(s: &S) -> Seq<(ClaimKind, Option<S::AppCircuitId>, Seq<S::Rx>)> {
    raw_claims(s) + app_claims(s) + internal_claims_upto(s, NUM_INTERNAL as nat)
}

/// The claims of each internal circuit are over the traces of the stages
/// that the circuit reads, one claim per proof over that proof's traces:
/// `hashes_1` reads its own trace, the preamble and the outer error stage;
/// `hashes_2` its own and the outer error stage; `inner_collapse` its own,
/// the preamble, the inner error and the outer error stages;
/// `outer_collapse` its own, the preamble and the outer error stage; and
/// `compute_v` its own, the preamble, the query and the evaluation stages.
/// There are as many claims as the shortest of those lists of traces.
pub proof fn lemma_circuit_claim_traces<S: Source>(s: &S, i: int)
    ensures
        internal_claims(s, InternalCircuitIndex::Hashes1Circuit).len() == vstd::math::min(vstd::math::min(s.rx_seq(RxComponent::Rx(RxIndex::Hashes1)).len() as int, s.rx_seq(RxComponent::Rx(RxIndex::Preamble)).len() as int), s.rx_seq(RxComponent::Rx(RxIndex::OuterError)).len() as int),
        0 <= i < internal_claims(s, InternalCircuitIndex::Hashes1Circuit).len() ==> internal_claims(
            s,
            InternalCircuitIndex::Hashes1Circuit,
        )[i] == (ClaimKind::Internal(InternalCircuitIndex::Hashes1Circuit), None::<S::AppCircuitId>, seq![
            s.rx_seq(RxComponent::Rx(RxIndex::Hashes1))[i], s.rx_seq(RxComponent::Rx(RxIndex::Preamble))[i], s.rx_seq(RxComponent::Rx(RxIndex::OuterError))[i],
        ]),
        internal_claims(s, InternalCircuitIndex::Hashes2Circuit).len() == vstd::math::min(s.rx_seq(RxComponent::Rx(RxIndex::Hashes2)).len() as int, s.rx_seq(RxComponent::Rx(RxIndex::OuterError)).len() as int),
        0 <= i < internal_claims(s, InternalCircuitIndex::Hashes2Circuit).len() ==> internal_claims(
            s,
            InternalCircuitIndex::Hashes2Circuit,
        )[i] == (ClaimKind::Internal(InternalCircuitIndex::Hashes2Circuit), None::<S::AppCircuitId>, seq![
            s.rx_seq(RxComponent::Rx(RxIndex::Hashes2))[i], s.rx_seq(RxComponent::Rx(RxIndex::OuterError))[i],
        ]),
        internal_claims(s, InternalCircuitIndex::InnerCollapseCircuit).len() == vstd::math::min(vstd::math::min(vstd::math::min(s.rx_seq(RxComponent::Rx(RxIndex::InnerCollapse)).len() as int, s.rx_seq(RxComponent::Rx(RxIndex::Preamble)).len() as int), s.rx_seq(RxComponent::Rx(RxIndex::InnerError)).len() as int), s.rx_seq(RxComponent::Rx(RxIndex::OuterError)).len() as int),
        0 <= i < internal_claims(s, InternalCircuitIndex::InnerCollapseCircuit).len() ==> internal_claims(
            s,
            InternalCircuitIndex::InnerCollapseCircuit,
        )[i] == (ClaimKind::Internal(InternalCircuitIndex::InnerCollapseCircuit), None::<S::AppCircuitId>, seq![
            s.rx_seq(RxComponent::Rx(RxIndex::InnerCollapse))[i], s.rx_seq(RxComponent::Rx(RxIndex::Preamble))[i], s.rx_seq(RxComponent::Rx(RxIndex::InnerError))[i], s.rx_seq(RxComponent::Rx(RxIndex::OuterError))[i],
        ]),
        internal_claims(s, InternalCircuitIndex::OuterCollapseCircuit).len() == vstd::math::min(vstd::math::min(s.rx_seq(RxComponent::Rx(RxIndex::OuterCollapse)).len() as int, s.rx_seq(RxComponent::Rx(RxIndex::Preamble)).len() as int), s.rx_seq(RxComponent::Rx(RxIndex::OuterError)).len() as int),
        0 <= i < internal_claims(s, InternalCircuitIndex::OuterCollapseCircuit).len() ==> internal_claims(
            s,
            InternalCircuitIndex::OuterCollapseCircuit,
        )[i] == (ClaimKind::Internal(InternalCircuitIndex::OuterCollapseCircuit), None::<S::AppCircuitId>, seq![
            s.rx_seq(RxComponent::Rx(RxIndex::OuterCollapse))[i], s.rx_seq(RxComponent::Rx(RxIndex::Preamble))[i], s.rx_seq(RxComponent::Rx(RxIndex::OuterError))[i],
        ]),
        internal_claims(s, InternalCircuitIndex::ComputeVCircuit).len() == vstd::math::min(vstd::math::min(vstd::math::min(s.rx_seq(RxComponent::Rx(RxIndex::ComputeV)).len() as int, s.rx_seq(RxComponent::Rx(RxIndex::Preamble)).len() as int), s.rx_seq(RxComponent::Rx(RxIndex::Query)).len() as int), s.rx_seq(RxComponent::Rx(RxIndex::Eval)).len() as int),
        0 <= i < internal_claims(s, InternalCircuitIndex::ComputeVCircuit).len() ==> internal_claims(
            s,
            InternalCircuitIndex::ComputeVCircuit,
        )[i] == (ClaimKind::Internal(InternalCircuitIndex::ComputeVCircuit), None::<S::AppCircuitId>, seq![
            s.rx_seq(RxComponent::Rx(RxIndex::ComputeV))[i], s.rx_seq(RxComponent::Rx(RxIndex::Preamble))[i], s.rx_seq(RxComponent::Rx(RxIndex::Query))[i], s.rx_seq(RxComponent::Rx(RxIndex::Eval))[i],
        ]),
{
    reveal_with_fuel(zip_len, 5);
    assert(components(InternalCircuitIndex::Hashes1Circuit).len() == 3);
    if 0 <= i < internal_claims(s, InternalCircuitIndex::Hashes1Circuit).len() {
        assert(internal_claims(s, InternalCircuitIndex::Hashes1Circuit)[i].2 =~= seq![s.rx_seq(RxComponent::Rx(RxIndex::Hashes1))[i], s.rx_seq(RxComponent::Rx(RxIndex::Preamble))[i], s.rx_seq(RxComponent::Rx(RxIndex::OuterError))[i]]);
    }
    assert(components(InternalCircuitIndex::Hashes2Circuit).len() == 2);
    if 0 <= i < internal_claims(s, InternalCircuitIndex::Hashes2Circuit).len() {
        assert(internal_claims(s, InternalCircuitIndex::Hashes2Circuit)[i].2 =~= seq![s.rx_seq(RxComponent::Rx(RxIndex::Hashes2))[i], s.rx_seq(RxComponent::Rx(RxIndex::OuterError))[i]]);
    }
    assert(components(InternalCircuitIndex::InnerCollapseCircuit).len() == 4);
    if 0 <= i < internal_claims(s, InternalCircuitIndex::InnerCollapseCircuit).len() {
        assert(internal_claims(s, InternalCircuitIndex::InnerCollapseCircuit)[i].2 =~= seq![s.rx_seq(RxComponent::Rx(RxIndex::InnerCollapse))[i], s.rx_seq(RxComponent::Rx(RxIndex::Preamble))[i], s.rx_seq(RxComponent::Rx(RxIndex::InnerError))[i], s.rx_seq(RxComponent::Rx(RxIndex::OuterError))[i]]);
    }
    assert(components(InternalCircuitIndex::OuterCollapseCircuit).len() == 3);
    if 0 <= i < internal_claims(s, InternalCircuitIndex::OuterCollapseCircuit).len() {
        assert(internal_claims(s, InternalCircuitIndex::OuterCollapseCircuit)[i].2 =~= seq![s.rx_seq(RxComponent::Rx(RxIndex::OuterCollapse))[i], s.rx_seq(RxComponent::Rx(RxIndex::Preamble))[i], s.rx_seq(RxComponent::Rx(RxIndex::OuterError))[i]]);
    }
    assert(components(InternalCircuitIndex::ComputeVCircuit).len() == 4);
    if 0 <= i < internal_claims(s, InternalCircuitIndex::ComputeVCircuit).len() {
        assert(internal_claims(s, InternalCircuitIndex::ComputeVCircuit)[i].2 =~= seq![s.rx_seq(RxComponent::Rx(RxIndex::ComputeV))[i], s.rx_seq(RxComponent::Rx(RxIndex::Preamble))[i], s.rx_seq(RxComponent::Rx(RxIndex::Query))[i], s.rx_seq(RxComponent::Rx(RxIndex::Eval))[i]]);
    }
}

/// The claim of each stage folds the traces of all proofs of the stage it
/// binds: each of the preamble, inner error, outer error, query and
/// evaluation stages its own traces; the final staging of the inner error
/// the `inner_collapse` traces; that of the outer error the `hashes_1`, then
/// the `hashes_2`, then the `outer_collapse` traces; and that of the
/// evaluation the `compute_v` traces.
pub proof fn lemma_stage_claim_traces<S: Source>(s: &S)
    ensures
        internal_claims(s, InternalCircuitIndex::PreambleStage) == seq![
            (ClaimKind::Bonding(InternalCircuitIndex::PreambleStage), None::<S::AppCircuitId>, s.rx_seq(RxComponent::Rx(RxIndex::Preamble))),
        ],
        internal_claims(s, InternalCircuitIndex::InnerErrorStage) == seq![
            (ClaimKind::Bonding(InternalCircuitIndex::InnerErrorStage), None::<S::AppCircuitId>, s.rx_seq(RxComponent::Rx(RxIndex::InnerError))),
        ],
        internal_claims(s, InternalCircuitIndex::OuterErrorStage) == seq![
            (ClaimKind::Bonding(InternalCircuitIndex::OuterErrorStage), None::<S::AppCircuitId>, s.rx_seq(RxComponent::Rx(RxIndex::OuterError))),
        ],
        internal_claims(s, InternalCircuitIndex::QueryStage) == seq![
            (ClaimKind::Bonding(InternalCircuitIndex::QueryStage), None::<S::AppCircuitId>, s.rx_seq(RxComponent::Rx(RxIndex::Query))),
        ],
        internal_claims(s, InternalCircuitIndex::EvalStage) == seq![
            (ClaimKind::Bonding(InternalCircuitIndex::EvalStage), None::<S::AppCircuitId>, s.rx_seq(RxComponent::Rx(RxIndex::Eval))),
        ],
        internal_claims(s, InternalCircuitIndex::InnerErrorFinalStaged) == seq![
            (ClaimKind::Bonding(InternalCircuitIndex::InnerErrorFinalStaged), None::<S::AppCircuitId>, s.rx_seq(RxComponent::Rx(RxIndex::InnerCollapse))),
        ],
        internal_claims(s, InternalCircuitIndex::OuterErrorFinalStaged) == seq![
            (ClaimKind::Bonding(InternalCircuitIndex::OuterErrorFinalStaged), None::<S::AppCircuitId>, s.rx_seq(RxComponent::Rx(RxIndex::Hashes1)) + s.rx_seq(RxComponent::Rx(RxIndex::Hashes2)) + s.rx_seq(RxComponent::Rx(RxIndex::OuterCollapse))),
        ],
        internal_claims(s, InternalCircuitIndex::EvalFinalStaged) == seq![
            (ClaimKind::Bonding(InternalCircuitIndex::EvalFinalStaged), None::<S::AppCircuitId>, s.rx_seq(RxComponent::Rx(RxIndex::ComputeV))),
        ],
{
    reveal_with_fuel(chained, 5);
    assert(chained(s, components(InternalCircuitIndex::PreambleStage)) =~= s.rx_seq(RxComponent::Rx(RxIndex::Preamble))) by {
        let c = components(InternalCircuitIndex::PreambleStage);
        assert(c.len() == 1);
    }
    assert(chained(s, components(InternalCircuitIndex::InnerErrorStage)) =~= s.rx_seq(RxComponent::Rx(RxIndex::InnerError))) by {
        let c = components(InternalCircuitIndex::InnerErrorStage);
        assert(c.len() == 1);
    }
    assert(chained(s, components(InternalCircuitIndex::OuterErrorStage)) =~= s.rx_seq(RxComponent::Rx(RxIndex::OuterError))) by {
        let c = components(InternalCircuitIndex::OuterErrorStage);
        assert(c.len() == 1);
    }
    assert(chained(s, components(InternalCircuitIndex::QueryStage)) =~= s.rx_seq(RxComponent::Rx(RxIndex::Query))) by {
        let c = components(InternalCircuitIndex::QueryStage);
        assert(c.len() == 1);
    }
    assert(chained(s, components(InternalCircuitIndex::EvalStage)) =~= s.rx_seq(RxComponent::Rx(RxIndex::Eval))) by {
        let c = components(InternalCircuitIndex::EvalStage);
        assert(c.len() == 1);
    }
    assert(chained(s, components(InternalCircuitIndex::InnerErrorFinalStaged)) =~= s.rx_seq(RxComponent::Rx(RxIndex::InnerCollapse))) by {
        let c = components(InternalCircuitIndex::InnerErrorFinalStaged);
        assert(c.len() == 1);
    }
    assert(chained(s, components(InternalCircuitIndex::OuterErrorFinalStaged)) =~= s.rx_seq(RxComponent::Rx(RxIndex::Hashes1)) + s.rx_seq(RxComponent::Rx(RxIndex::Hashes2)) + s.rx_seq(RxComponent::Rx(RxIndex::OuterCollapse))) by {
        let c = components(InternalCircuitIndex::OuterErrorFinalStaged);
        assert(c.len() == 3);
    }
    assert(chained(s, components(InternalCircuitIndex::EvalFinalStaged)) =~= s.rx_seq(RxComponent::Rx(RxIndex::ComputeV))) by {
        let c = components(InternalCircuitIndex::EvalFinalStaged);
        assert(c.len() == 1);
    }
}

/// Appends the claims of circuit `id` to `out`: one per proof, over that
/// proof's entries of the circuit's components.
fn push_circuit_claims<S: Source>(out: &mut Vec<Claim<S::Rx, S::AppCircuitId>>, source: &S, id: InternalCircuitIndex)
    requires
        is_circuit(id),
    ensures
        claim_views(final(out)@) == claim_views(old(out)@) + internal_claims(source, id),
{
    let comps = claim_components(id);
    let ghost cs = comps@;
    let mut cols: Vec<Vec<S::Rx>> = Vec::new();
    let mut n: usize = 0;
    let mut j: usize = 0;
    while j < comps.len()
        invariant
            j <= cs.len(),
            cs == comps@,
            cols@.len() == j,
            forall|k: int| 0 <= k < j ==> (#[trigger] cols@[k])@ == source.rx_seq(cs[k]),
            n == zip_len(source, cs.take(j as int)),
        decreases cs.len() - j,
    {
        let col = source.rx(comps[j]);
        proof {
            assert(cs.take(j + 1).drop_last() =~= cs.take(j as int));
        }
        if j == 0 || col.len() < n {
            n = col.len();
        }
        cols.push(col);
        j = j + 1;
    }
    proof {
        assert(cs.take(cs.len() as int) =~= cs);
    }
    let ghost start = claim_views(out@);
    let ghost claims = internal_claims(source, id);
    let mut i: usize = 0;
    while i < n
        invariant
            i <= n,
            n == zip_len(source, cs),
            cs == comps@,
            cs == components(id),
            is_circuit(id),
            claims == internal_claims(source, id),
            cols@.len() == cs.len(),
            forall|k: int| 0 <= k < cs.len() ==> (#[trigger] cols@[k])@ == source.rx_seq(cs[k]),
            claim_views(out@) == start + claims.take(i as int),
        decreases n - i,
    {
        let mut rxs: Vec<S::Rx> = Vec::new();
        let mut k: usize = 0;
        while k < comps.len()
            invariant
                k <= cs.len(),
                i < n,
                n == zip_len(source, cs),
                cs == comps@,
                cols@.len() == cs.len(),
                forall|t: int| 0 <= t < cs.len() ==> (#[trigger] cols@[t])@ == source.rx_seq(cs[t]),
                rxs@ == Seq::new(k as nat, |t: int| source.rx_seq(cs[t])[i as int]),
            decreases cs.len() - k,
        {
            proof {
                lemma_zip_len_le(source, cs, k as int);
            }
            rxs.push(cols[k][i]);
            k = k + 1;
            proof {
                assert(rxs@ =~= Seq::new(k as nat, |t: int| source.rx_seq(cs[t])[i as int]));
            }
        }
        let ghost before = out@;
        out.push(Claim::Internal(id, rxs));
        i = i + 1;
        proof {
            assert(claims[i - 1] == (ClaimKind::Internal(id), None::<S::AppCircuitId>, rxs@));
            assert(claim_views(out@) =~= claim_views(before).push(claims[i - 1]));
            assert(claims.take(i as int) =~= claims.take(i - 1).push(claims[i - 1]));
        }
    }
    proof {
        assert(claims.take(n as int) =~= claims);
    }
}

/// Appends the claim of stage `id` to `out`: over the entries of all proofs
/// of each of its components, one component after the other.
fn push_bonding_claim<S: Source>(out: &mut Vec<Claim<S::Rx, S::AppCircuitId>>, source: &S, id: InternalCircuitIndex)
    requires
        !is_circuit(id),
    ensures
        claim_views(final(out)@) == claim_views(old(out)@) + internal_claims(source, id),
{
    let comps = claim_components(id);
    let ghost cs = comps@;
    let mut rxs: Vec<S::Rx> = Vec::new();
    let mut j: usize = 0;
    while j < comps.len()
        invariant
            j <= cs.len(),
            cs == comps@,
            rxs@ == chained(source, cs.take(j as int)),
        decreases cs.len() - j,
    {
        let col = source.rx(comps[j]);
        let ghost prior = rxs@;
        let mut t: usize = 0;
        while t < col.len()
            invariant
                t <= col@.len(),
                rxs@ == prior + col@.take(t as int),
            decreases col@.len() - t,
        {
            rxs.push(col[t]);
            t = t + 1;
            proof {
                assert(rxs@ =~= prior + col@.take(t as int));
            }
        }
        proof {
            assert(cs.take(j + 1).drop_last() =~= cs.take(j as int));
            assert(col@.take(col@.len() as int) =~= col@);
        }
        j = j + 1;
    }
    proof {
        assert(cs.take(cs.len() as int) =~= cs);
    }
    let ghost before = out@;
    out.push(Claim::Bonding(id, rxs));
    proof {
        assert(claim_views(out@) =~= claim_views(before) + internal_claims(source, id));
    }
}

/// Builds the claims of `source` in unified interleaved order: for each kind
/// of claim, the claims of all proofs before the next kind. For two proofs
/// this is `[L_raw, R_raw, L_app, R_app, L_h1, R_h1, ...]`, the order of the
/// `k(y)` values of [`ky_values`].
pub fn build<S: Source>(source: &S) -> (r: Vec<Claim<S::Rx, S::AppCircuitId>>)
    ensures
        claim_views(r@) == build_claims(source),
{
    let mut out: Vec<Claim<S::Rx, S::AppCircuitId>> = Vec::new();
    let a = source.rx(RxComponent::AbA);
    let b = source.rx(RxComponent::AbB);
    let ghost raw = raw_claims(source);
    let mut i: usize = 0;
    while i < a.len() && i < b.len()
        invariant
            i <= a@.len(),
            i <= b@.len(),
            a@ == source.rx_seq(RxComponent::AbA),
            b@ == source.rx_seq(RxComponent::AbB),
            raw == raw_claims(source),
            claim_views(out@) == raw.take(i as int),
        decreases a@.len() - i,
    {
        let ghost before = out@;
        out.push(Claim::Raw(a[i], b[i]));
        i = i + 1;
        proof {
            assert(claim_views(out@) =~= claim_views(before).push(raw[i - 1]));
            assert(raw.take(i as int) =~= raw.take(i - 1).push(raw[i - 1]));
        }
    }
    proof {
        assert(raw.take(i as int) =~= raw);
    }
    let ids = source.app_circuits();
    let rx = source.rx(RxComponent::Rx(RxIndex::Application));
    let ghost app = app_claims(source);
    let mut i: usize = 0;
    while i < ids.len() && i < rx.len()
        invariant
            i <= ids@.len(),
            i <= rx@.len(),
            ids@ == source.app_seq(),
            rx@ == source.rx_seq(RxComponent::Rx(RxIndex::Application)),
            raw == raw_claims(source),
            app == app_claims(source),
            claim_views(out@) == raw + app.take(i as int),
        decreases ids@.len() - i,
    {
        let ghost before = out@;
        out.push(Claim::Circuit(ids[i], rx[i]));
        i = i + 1;
        proof {
            assert(claim_views(out@) =~= claim_views(before).push(app[i - 1]));
            assert(app.take(i as int) =~= app.take(i - 1).push(app[i - 1]));
            assert(claim_views(out@) =~= raw + app.take(i as int));
        }
    }
    proof {
        assert(app.take(i as int) =~= app);
    }
    let mut k: usize = 0;
    while k < NUM_INTERNAL
        invariant
            k <= NUM_INTERNAL,
            claim_views(out@) == raw_claims(source) + app_claims(source) + internal_claims_upto(source, k as nat),
        decreases NUM_INTERNAL - k,
    {
        let id = InternalCircuitIndex::at(k);
        if id.index() < 5 {
            push_circuit_claims(&mut out, source, id);
        } else {
            push_bonding_claim(&mut out, source, id);
        }
        k = k + 1;
        proof {
            assert(internal_claims_upto(source, k as nat) == internal_claims_upto(source, (k - 1) as nat)
                + internal_claims(source, internal_at((k - 1) as nat)));
        }
    }
    out
}

/// The `k(y)` value that a claim of `kind` made for proof `p` is checked
/// against: the proof's `raw_c` for a raw claim, its application value for
/// an application circuit, its unified bridge value for the first hash
/// circuit, its unified value for the other internal circuits, and zero for
/// a stage.
pub open spec fn claim_ky<K: KySource>(ky: &K, kind: ClaimKind, p: int) -> K::Ky {
    match kind {
        ClaimKind::Raw => ky.raw_c_seq()[p],
        ClaimKind::Circuit => ky.application_seq()[p],
        ClaimKind::Internal(id) => if id == InternalCircuitIndex::Hashes1Circuit {
            ky.unified_bridge_seq()[p]
        } else {
            ky.unified_seq()[p]
        },
        ClaimKind::Bonding(_) => ky.zero_spec(),
    }
}

proof fn lemma_zip_len_uniform<S: Source>(s: &S, comps: Seq<RxComponent>, n: nat)
    requires
        comps.len() > 0,
        forall|c: RxComponent| #[trigger] s.rx_seq(c).len() == n,
    ensures
        zip_len(s, comps) == n,
    decreases comps.len(),
{
    if comps.len() > 1 {
        lemma_zip_len_uniform(s, comps.drop_last(), n);
    }
}

proof fn lemma_internal_claims_shape<S: Source>(s: &S, id: InternalCircuitIndex, n: nat)
    requires
        forall|c: RxComponent| #[trigger] s.rx_seq(c).len() == n,
    ensures
        is_circuit(id) ==> internal_claims(s, id).len() == n,
        !is_circuit(id) ==> internal_claims(s, id).len() == 1,
        forall|i: int| 0 <= i < internal_claims(s, id).len() ==> (#[trigger] internal_claims(s, id)[i]).0 == if is_circuit(id) {
            ClaimKind::Internal(id)
        } else {
            ClaimKind::Bonding(id)
        },
{
    lemma_zip_len_uniform(s, components(id), n);
}

/// The claims that [`build`] makes and the `k(y)` values that [`ky_values`]
/// lists are in the same order: when every component and every `k(y)`
/// source holds one entry for each of `n` proofs, claim `i` is checked
/// against `k(y)` value `i`, the one its kind and proof call for.
pub proof fn lemma_claim_order_matches_ky<S: Source, K: KySource>(s: &S, ky: &K, n: nat)
    requires
        forall|c: RxComponent| #[trigger] s.rx_seq(c).len() == n,
        s.app_seq().len() == n,
        ky.raw_c_seq().len() == n,
        ky.application_seq().len() == n,
        ky.unified_bridge_seq().len() == n,
        ky.unified_seq().len() == n,
    ensures
        build_claims(s).len() == 7 * n + 8,
        forall|i: int|
            0 <= i < build_claims(s).len() ==> ky_at(ky, i) == claim_ky(ky, (#[trigger] build_claims(s)[i]).0, i % (n as int)),
{
    let c = build_claims(s);
    let raw = raw_claims(s);
    let app = app_claims(s);
    let cl = Seq::new(13, |k: int| internal_claims(s, internal_at(k as nat)));
    assert forall|k: int| 0 <= k < 13 implies #[trigger] cl[k].len() == if k < 5 { n } else { 1 } by {
        lemma_internal_claims_shape(s, internal_at(k as nat), n);
    }
    reveal_with_fuel(internal_claims_upto, 14);
    let up = internal_claims_upto(s, 13);
    assert(up =~= cl[0] + cl[1] + cl[2] + cl[3] + cl[4] + cl[5] + cl[6] + cl[7] + cl[8] + cl[9] + cl[10] + cl[11] + cl[12]);
    assert(c.len() == 7 * n + 8);
    let kc = ky_claims(ky);
    assert forall|i: int| 0 <= i < c.len() implies ky_at(ky, i) == claim_ky(ky, (#[trigger] c[i]).0, i % (n as int)) by {
        let nn = n as int;
        if i < 7 * nn {
            let q: int = if i < nn {
                0
            } else if i < 2 * nn {
                1
            } else if i < 3 * nn {
                2
            } else if i < 4 * nn {
                3
            } else if i < 5 * nn {
                4
            } else if i < 6 * nn {
                5
            } else {
                6
            };
            let r = i - q * nn;
            assert(0 <= r < nn);
            vstd::arithmetic::div_mod::lemma_fundamental_div_mod_converse(i, nn, q, r);
            if q >= 2 {
                let k = q - 2;
                lemma_internal_claims_shape(s, internal_at(k as nat), n);
                assert(c[i] == cl[k][r]);
            }
        } else {
            let t = i - 7 * nn;
            lemma_internal_claims_shape(s, internal_at((5 + t) as nat), n);
            assert(c[i] == cl[5 + t][0]);
        }
    }
}

/// With `n` entries of every component, [`build`] makes `7 * n + 8`
/// claims: `n` of each of the raw, application and five internal circuit
/// kinds, and one for each of the eight stages.
pub proof fn lemma_build_len<S: Source>(s: &S, n: nat)
    requires
        forall|c: RxComponent| #[trigger] s.rx_seq(c).len() == n,
        s.app_seq().len() == n,
    ensures
        build_claims(s).len() == 7 * n + 8,
        forall|k: nat| k < NUM_INTERNAL ==> (#[trigger] internal_claims(s, internal_at(k))).len() == if k < 5 {
            n
        } else {
            1
        },
{
    assert forall|k: nat| k < NUM_INTERNAL implies (#[trigger] internal_claims(s, internal_at(k))).len() == if k < 5 {
        n
    } else {
        1
    } by {
        lemma_internal_claims_shape(s, internal_at(k), n);
    }
    reveal_with_fuel(internal_claims_upto, 14);
}

proof fn lemma_chained_entries<S: Source>(s: &S, comps: Seq<RxComponent>, p: spec_fn(S::Rx) -> bool)
    requires
        forall|c: RxComponent, k: int| 0 <= k < s.rx_seq(c).len() ==> #[trigger] p(s.rx_seq(c)[k]),
    ensures
        forall|j: int| 0 <= j < chained(s, comps).len() ==> #[trigger] p(chained(s, comps)[j]),
    decreases comps.len(),
{
    if comps.len() > 0 {
        lemma_chained_entries(s, comps.drop_last(), p);
        let a = chained(s, comps.drop_last());
        let b = s.rx_seq(comps.last());
        assert forall|j: int| 0 <= j < chained(s, comps).len() implies #[trigger] p(chained(s, comps)[j]) by {
            if j >= a.len() {
                assert(chained(s, comps)[j] == b[j - a.len()]);
            } else {
                assert(chained(s, comps)[j] == a[j]);
            }
        }
    }
}

proof fn lemma_upto_entries<S: Source>(s: &S, k: nat, p: spec_fn(S::Rx) -> bool)
    requires
        forall|c: RxComponent, t: int| 0 <= t < s.rx_seq(c).len() ==> #[trigger] p(s.rx_seq(c)[t]),
    ensures
        forall|i: int, j: int|
            0 <= i < internal_claims_upto(s, k).len() && 0 <= j < internal_claims_upto(s, k)[i].2.len() ==> #[trigger] p(
                internal_claims_upto(s, k)[i].2[j],
            ),
        forall|i: int| 0 <= i < internal_claims_upto(s, k).len() ==> (#[trigger] internal_claims_upto(s, k)[i]).1 is None,
    decreases k,
{
    if k > 0 {
        lemma_upto_entries(s, (k - 1) as nat, p);
        let id = internal_at((k - 1) as nat);
        let a = internal_claims_upto(s, (k - 1) as nat);
        let b = internal_claims(s, id);
        let comps = components(id);
        if is_circuit(id) {
            assert forall|i: int, j: int| 0 <= i < b.len() && 0 <= j < b[i].2.len() implies #[trigger] p(b[i].2[j]) by {
                lemma_zip_len_le(s, comps, j);
            }
        } else {
            lemma_chained_entries(s, comps, p);
        }
        let u = internal_claims_upto(s, k);
        assert(u == a + b);
        assert forall|i: int, j: int| 0 <= i < u.len() && 0 <= j < u[i].2.len() implies #[trigger] p(u[i].2[j]) by {
            if i >= a.len() {
                assert(u[i] == b[i - a.len()]);
            } else {
                assert(u[i] == a[i]);
            }
        }
        assert forall|i: int| 0 <= i < u.len() implies (#[trigger] u[i]).1 is None by {
            if i >= a.len() {
                assert(u[i] == b[i - a.len()]);
            } else {
                assert(u[i] == a[i]);
            }
        }
    }
}

/// Every entry of every claim that [`build`] makes is an entry of one of
/// the source's components, and every application circuit one of its
/// application circuits: what holds of all of those holds of the claims.
pub proof fn lemma_build_entries<S: Source>(s: &S, p: spec_fn(S::Rx) -> bool, q: spec_fn(S::AppCircuitId) -> bool)
    requires
        forall|c: RxComponent, k: int| 0 <= k < s.rx_seq(c).len() ==> #[trigger] p(s.rx_seq(c)[k]),
        forall|k: int| 0 <= k < s.app_seq().len() ==> #[trigger] q(s.app_seq()[k]),
    ensures
        forall|i: int, j: int|
            0 <= i < build_claims(s).len() && 0 <= j < build_claims(s)[i].2.len() ==> #[trigger] p(
                build_claims(s)[i].2[j],
            ),
        forall|i: int|
            0 <= i < build_claims(s).len() ==> ((#[trigger] build_claims(s)[i]).1 matches Some(a) ==> q(a)),
{
    let raw = raw_claims(s);
    let app = app_claims(s);
    let up = internal_claims_upto(s, NUM_INTERNAL as nat);
    lemma_upto_entries(s, NUM_INTERNAL as nat, p);
    let c = build_claims(s);
    assert(c == raw + app + up);
    assert forall|i: int, j: int| 0 <= i < c.len() && 0 <= j < c[i].2.len() implies #[trigger] p(c[i].2[j]) by {
        if i < raw.len() {
            assert(c[i] == raw[i]);
        } else if i < raw.len() + app.len() {
            assert(c[i] == app[i - raw.len()]);
        } else {
            assert(c[i] == up[i - raw.len() - app.len()]);
        }
    }
    assert forall|i: int| 0 <= i < c.len() implies ((#[trigger] c[i]).1 matches Some(a) ==> q(a)) by {
        if i < raw.len() {
            assert(c[i] == raw[i]);
        } else if i < raw.len() + app.len() {
            assert(c[i] == app[i - raw.len()]);
        } else {
            assert(c[i] == up[i - raw.len() - app.len()]);
        }
    }
}

} // verus!
