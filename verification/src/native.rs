//! Indices of the polynomials a native proof carries and of the internal
//! circuits of the recursion, with the tables keyed by them.

pub mod circuits;
pub mod claims;
pub mod stages;

use vstd::prelude::*;

verus! {

/// The number of `rx` polynomials of a proof.
pub const NUM_RX: usize = 11;

/// The number of internal circuits and stages.
pub const NUM_INTERNAL: usize = 13;

/// The `rx` polynomials of a proof, one per circuit or stage trace.
#[derive(Clone, Copy, Debug, PartialEq, Eq, Structural)]
pub enum RxIndex {
    Application,
    Preamble,
    InnerError,
    OuterError,
    Query,
    Eval,
    Hashes1,
    Hashes2,
    InnerCollapse,
    OuterCollapse,
    ComputeV,
}

/// The polynomial at position `i < NUM_RX` of a proof's table.
pub open spec fn rx_at(i: nat) -> RxIndex {
    if i == 0 {
        RxIndex::Application
    } else if i == 1 {
        RxIndex::Preamble
    } else if i == 2 {
        RxIndex::InnerError
    } else if i == 3 {
        RxIndex::OuterError
    } else if i == 4 {
        RxIndex::Query
    } else if i == 5 {
        RxIndex::Eval
    } else if i == 6 {
        RxIndex::Hashes1
    } else if i == 7 {
        RxIndex::Hashes2
    } else if i == 8 {
        RxIndex::InnerCollapse
    } else if i == 9 {
        RxIndex::OuterCollapse
    } else {
        RxIndex::ComputeV
    }
}

impl RxIndex {
    /// The position of this polynomial in a proof's table.
    pub open spec fn position(self) -> nat {
        match self {
            RxIndex::Application => 0,
            RxIndex::Preamble => 1,
            RxIndex::InnerError => 2,
            RxIndex::OuterError => 3,
            RxIndex::Query => 4,
            RxIndex::Eval => 5,
            RxIndex::Hashes1 => 6,
            RxIndex::Hashes2 => 7,
            RxIndex::InnerCollapse => 8,
            RxIndex::OuterCollapse => 9,
            RxIndex::ComputeV => 10,
        }
    }

    /// The position of this polynomial in a proof's table.
    pub fn index(self) -> (r: usize)
        ensures
            r == self.position(),
            r < NUM_RX,
    {
        match self {
            RxIndex::Application => 0,
            RxIndex::Preamble => 1,
            RxIndex::InnerError => 2,
            RxIndex::OuterError => 3,
            RxIndex::Query => 4,
            RxIndex::Eval => 5,
            RxIndex::Hashes1 => 6,
            RxIndex::Hashes2 => 7,
            RxIndex::InnerCollapse => 8,
            RxIndex::OuterCollapse => 9,
            RxIndex::ComputeV => 10,
        }
    }
}

/// A polynomial of a proof that claims are made about: the two halves of the
/// accumulated revdot claim, or one of the `rx` polynomials.
#[derive(Clone, Copy, Debug, PartialEq, Eq, Structural)]
pub enum RxComponent {
    AbA,
    AbB,
    Rx(RxIndex),
}

/// The internal circuits and stages of the recursion, in canonical order.
#[derive(Clone, Copy, Debug, PartialEq, Eq, Structural)]
pub enum InternalCircuitIndex {
    Hashes1Circuit,
    Hashes2Circuit,
    InnerCollapseCircuit,
    OuterCollapseCircuit,
    ComputeVCircuit,
    PreambleStage,
    InnerErrorStage,
    OuterErrorStage,
    QueryStage,
    EvalStage,
    InnerErrorFinalStaged,
    OuterErrorFinalStaged,
    EvalFinalStaged,
}

/// The internal circuit at canonical position `i < NUM_INTERNAL`.
pub open spec fn internal_at(i: nat) -> InternalCircuitIndex {
    if i == 0 {
        InternalCircuitIndex::Hashes1Circuit
    } else if i == 1 {
        InternalCircuitIndex::Hashes2Circuit
    } else if i == 2 {
        InternalCircuitIndex::InnerCollapseCircuit
    } else if i == 3 {
        InternalCircuitIndex::OuterCollapseCircuit
    } else if i == 4 {
        InternalCircuitIndex::ComputeVCircuit
    } else if i == 5 {
        InternalCircuitIndex::PreambleStage
    } else if i == 6 {
        InternalCircuitIndex::InnerErrorStage
    } else if i == 7 {
        InternalCircuitIndex::OuterErrorStage
    } else if i == 8 {
        InternalCircuitIndex::QueryStage
    } else if i == 9 {
        InternalCircuitIndex::EvalStage
    } else if i == 10 {
        InternalCircuitIndex::InnerErrorFinalStaged
    } else if i == 11 {
        InternalCircuitIndex::OuterErrorFinalStaged
    } else {
        InternalCircuitIndex::EvalFinalStaged
    }
}

impl InternalCircuitIndex {
    /// The canonical position of this circuit.
    pub open spec fn position(self) -> nat {
        match self {
            InternalCircuitIndex::Hashes1Circuit => 0,
            InternalCircuitIndex::Hashes2Circuit => 1,
            InternalCircuitIndex::InnerCollapseCircuit => 2,
            InternalCircuitIndex::OuterCollapseCircuit => 3,
            InternalCircuitIndex::ComputeVCircuit => 4,
            InternalCircuitIndex::PreambleStage => 5,
            InternalCircuitIndex::InnerErrorStage => 6,
            InternalCircuitIndex::OuterErrorStage => 7,
            InternalCircuitIndex::QueryStage => 8,
            InternalCircuitIndex::EvalStage => 9,
            InternalCircuitIndex::InnerErrorFinalStaged => 10,
            InternalCircuitIndex::OuterErrorFinalStaged => 11,
            InternalCircuitIndex::EvalFinalStaged => 12,
        }
    }

    /// The canonical position of this circuit.
    pub fn index(self) -> (r: usize)
        ensures
            r == self.position(),
            r < NUM_INTERNAL,
    {
        match self {
            InternalCircuitIndex::Hashes1Circuit => 0,
            InternalCircuitIndex::Hashes2Circuit => 1,
            InternalCircuitIndex::InnerCollapseCircuit => 2,
            InternalCircuitIndex::OuterCollapseCircuit => 3,
            InternalCircuitIndex::ComputeVCircuit => 4,
            InternalCircuitIndex::PreambleStage => 5,
            InternalCircuitIndex::InnerErrorStage => 6,
            InternalCircuitIndex::OuterErrorStage => 7,
            InternalCircuitIndex::QueryStage => 8,
            InternalCircuitIndex::EvalStage => 9,
            InternalCircuitIndex::InnerErrorFinalStaged => 10,
            InternalCircuitIndex::OuterErrorFinalStaged => 11,
            InternalCircuitIndex::EvalFinalStaged => 12,
        }
    }

    /// The internal circuit at canonical position `i`.
    pub fn at(i: usize) -> (r: InternalCircuitIndex)
        requires
            i < NUM_INTERNAL,
        ensures
            r == internal_at(i as nat),
            r.position() == i,
    {
        if i == 0 {
            InternalCircuitIndex::Hashes1Circuit
        } else if i == 1 {
            InternalCircuitIndex::Hashes2Circuit
        } else if i == 2 {
            InternalCircuitIndex::InnerCollapseCircuit
        } else if i == 3 {
            InternalCircuitIndex::OuterCollapseCircuit
        } else if i == 4 {
            InternalCircuitIndex::ComputeVCircuit
        } else if i == 5 {
            InternalCircuitIndex::PreambleStage
        } else if i == 6 {
            InternalCircuitIndex::InnerErrorStage
        } else if i == 7 {
            InternalCircuitIndex::OuterErrorStage
        } else if i == 8 {
            InternalCircuitIndex::QueryStage
        } else if i == 9 {
            InternalCircuitIndex::EvalStage
        } else if i == 10 {
            InternalCircuitIndex::InnerErrorFinalStaged
        } else if i == 11 {
            InternalCircuitIndex::OuterErrorFinalStaged
        } else {
            InternalCircuitIndex::EvalFinalStaged
        }
    }
}

/// One value per `rx` polynomial of a proof.
pub struct RxValues<T> {
    items: Vec<T>,
}

impl<T> View for RxValues<T> {
    type V = Seq<T>;

    closed spec fn view(&self) -> Seq<T> {
        self.items@
    }
}

impl<T> RxValues<T> {
    #[verifier::type_invariant]
    spec fn full(self) -> bool {
        self.items@.len() == NUM_RX
    }

    /// The value of `id`.
    pub open spec fn at(&self, id: RxIndex) -> T {
        self@[id.position() as int]
    }

    /// Creates a table from one value per polynomial, in table order.
    pub fn new(items: Vec<T>) -> (r: Option<RxValues<T>>)
        ensures
            r is Some <==> items@.len() == NUM_RX,
            r matches Some(t) ==> t@ == items@,
    {
        if items.len() == NUM_RX {
            Some(RxValues { items })
        } else {
            None
        }
    }

    /// Creates a table from exactly one value per entry, in table order.
    pub fn from_vec(items: Vec<T>) -> (r: RxValues<T>)
        requires
            items@.len() == NUM_RX,
        ensures
            r@ == items@,
    {
        RxValues { items }
    }

    /// The value of `id`.
    pub fn get(&self, id: RxIndex) -> (r: &T)
        ensures
            *r == self.at(id),
    {
        proof {
            use_type_invariant(self);
        }
        &self.items[id.index()]
    }

    /// The values in table order.
    pub fn as_slice(&self) -> (r: &[T])
        ensures
            r@ == self@,
            r@.len() == NUM_RX,
    {
        proof {
            use_type_invariant(self);
        }
        self.items.as_slice()
    }

    /// The number of values.
    pub fn len(&self) -> (r: usize)
        ensures
            r == self@.len(),
            r == NUM_RX,
    {
        proof {
            use_type_invariant(self);
        }
        self.items.len()
    }
}

/// One value per internal circuit, in canonical order.
pub struct InternalCircuitValues<T> {
    items: Vec<T>,
}

impl<T> View for InternalCircuitValues<T> {
    type V = Seq<T>;

    closed spec fn view(&self) -> Seq<T> {
        self.items@
    }
}

impl<T> InternalCircuitValues<T> {
    #[verifier::type_invariant]
    spec fn full(self) -> bool {
        self.items@.len() == NUM_INTERNAL
    }

    /// The value of `id`.
    pub open spec fn at(&self, id: InternalCircuitIndex) -> T {
        self@[id.position() as int]
    }

    /// Creates a table from one value per internal circuit, in canonical
    /// order.
    pub fn new(items: Vec<T>) -> (r: Option<InternalCircuitValues<T>>)
        ensures
            r is Some <==> items@.len() == NUM_INTERNAL,
            r matches Some(t) ==> t@ == items@,
    {
        if items.len() == NUM_INTERNAL {
            Some(InternalCircuitValues { items })
        } else {
            None
        }
    }

    /// Creates a table from exactly one value per entry, in table order.
    pub fn from_vec(items: Vec<T>) -> (r: InternalCircuitValues<T>)
        requires
            items@.len() == NUM_INTERNAL,
        ensures
            r@ == items@,
    {
        InternalCircuitValues { items }
    }

    /// The value of `id`.
    pub fn get(&self, id: InternalCircuitIndex) -> (r: &T)
        ensures
            *r == self.at(id),
    {
        proof {
            use_type_invariant(self);
        }
        &self.items[id.index()]
    }

    /// The values in canonical order.
    pub fn as_slice(&self) -> (r: &[T])
        ensures
            r@ == self@,
            r@.len() == NUM_INTERNAL,
    {
        proof {
            use_type_invariant(self);
        }
        self.items.as_slice()
    }

    /// The number of values.
    pub fn len(&self) -> (r: usize)
        ensures
            r == self@.len(),
            r == NUM_INTERNAL,
    {
        proof {
            use_type_invariant(self);
        }
        self.items.len()
    }
}

} // verus!
