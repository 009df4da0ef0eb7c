use ragu::boolean::Boolean;
use ragu::element::Element;
use ragu::error::{Error, WitnessError};
use ragu::endoscalar::{extract_endoscalar, lift_endoscalar};
use ragu::field::Fp;
use ragu::fold_revdot::{fold, fold_polys, off_diagonal_pairs, NumErrorTerms, Parameters};
use ragu::native::circuits::compute_v::{
    compute_axbx, poly_queries, ChildPreamble, ChildQueryEvaluations, ChildUnified, Circuit as ComputeV,
    Denominators, EvaluationProcessor, EvaluationSource, PreambleOutput, QueryOutput, VChallenges,
    Witness as ComputeVWitness,
};
use ragu::native::circuits::inner_collapse::{Circuit as InnerCollapse, Witness as InnerCollapseWitness};
use ragu::native::circuits::outer_collapse::{Circuit as OuterCollapse, Witness as OuterCollapseWitness};
use ragu::native::claims::{build, ky_values, Claim, TwoProofKySource};
use ragu::native::stages::eval::{
    ChildEvaluationsWitness, CurrentStepWitness, Stage as EvalStage, Witness as EvalWitness,
};
use ragu::native::stages::inner_error::{Stage as InnerErrorStage, Witness as InnerErrorWitness};
use ragu::native::stages::outer_error::{
    ChildKyOutputs, ChildKyValues, KyValues, Stage as OuterErrorStage, Witness as OuterErrorWitness,
};
use ragu::native::{InternalCircuitIndex, InternalCircuitValues, RxComponent, RxIndex, RxValues, NUM_INTERNAL, NUM_RX};
use ragu::encoding::{Encoded, EncodedInner};
use ragu::fuse::claims::{fold as fold_tracked, Atom, FoldKey, Side, TrackedPoly};
use ragu::fuse::p::{compute_p, ChildProof, Committed, CurrentStep};
use ragu::polynomial::Polynomial;
use ragu::header::Suffix;
use ragu::simulator::Simulator;
use ragu::steps::{Rerandomize, Trivial};
use ragu::vec::{ConstLen, FixedVec, Len};

struct TestParams<const N: usize, const M: usize>;

impl<const N: usize, const M: usize> Parameters for TestParams<N, M> {
    type NumGroups = ConstLen<N>;
    type GroupSize = ConstLen<M>;
}

fn fp(v: u64) -> Fp {
    Fp::from_u64(v)
}

fn constant(dr: &mut Simulator, v: u64) -> Element {
    Element::constant(dr, fp(v))
}

/// Query evaluations whose entries are distinct: `base + 100` for the
/// `a` evaluation, `base + k` for `rx` entry `k`, and so on.
fn child_query(dr: &mut Simulator, base: u64) -> ChildQueryEvaluations {
    let rx: Vec<Element> = (0..NUM_RX as u64).map(|k| constant(dr, base + k)).collect();
    ChildQueryEvaluations {
        rx: RxValues::new(rx).unwrap(),
        a_poly_at_xz: constant(dr, base + 100),
        b_poly_at_x: constant(dr, base + 200),
        child_registry_xy_at_current_w: constant(dr, base + 300),
        current_registry_wy_at_child_x: constant(dr, base + 400),
        current_registry_xy_at_child_circuit_id: constant(dr, base + 500),
    }
}

fn query_output(dr: &mut Simulator) -> QueryOutput {
    let registry: Vec<Element> = (0..NUM_INTERNAL as u64).map(|k| constant(dr, 7000 + k)).collect();
    QueryOutput {
        left: child_query(dr, 1000),
        right: child_query(dr, 2000),
        registry_wxy: constant(dr, 9000),
        fixed_registry: InternalCircuitValues::new(registry).unwrap(),
    }
}

fn claim_values(c: &Claim<Element, Element>) -> Vec<Fp> {
    match c {
        Claim::Raw(a, b) => vec![a.value(), b.value()],
        Claim::Circuit(app, rx) => vec![app.value(), rx.value()],
        Claim::Internal(_, rxs) => rxs.iter().map(|e| e.value()).collect(),
        Claim::Bonding(_, rxs) => rxs.iter().map(|e| e.value()).collect(),
    }
}

#[test]
fn build_orders_claims_by_kind_then_proof() {
    let mut dr = Simulator::new();
    let query = query_output(&mut dr);
    let source = EvaluationSource { left: &query.left, right: &query.right };
    let claims = build(&source);
    assert_eq!(claims.len(), 22);

    // Raw claims: (a, b) of each proof.
    assert_eq!(claim_values(&claims[0]), vec![fp(1100), fp(1200)]);
    assert_eq!(claim_values(&claims[1]), vec![fp(2100), fp(2200)]);
    // Application circuits: the registry at the circuit id and the trace.
    let app = RxIndex::Application.index() as u64;
    assert_eq!(claim_values(&claims[2]), vec![fp(1500), fp(1000 + app)]);
    assert_eq!(claim_values(&claims[3]), vec![fp(2500), fp(2000 + app)]);
    // hashes_1 of the left proof: Hashes1 + Preamble + OuterError.
    match &claims[4] {
        Claim::Internal(id, _) => assert_eq!(*id, InternalCircuitIndex::Hashes1Circuit),
        _ => panic!("expected an internal circuit claim"),
    }
    let h1 = RxIndex::Hashes1.index() as u64;
    let pre = RxIndex::Preamble.index() as u64;
    let oe = RxIndex::OuterError.index() as u64;
    assert_eq!(claim_values(&claims[4]), vec![fp(1000 + h1), fp(1000 + pre), fp(1000 + oe)]);
    assert_eq!(claim_values(&claims[5]), vec![fp(2000 + h1), fp(2000 + pre), fp(2000 + oe)]);
    // compute_v of the right proof is the last circuit claim.
    match &claims[13] {
        Claim::Internal(id, rxs) => {
            assert_eq!(*id, InternalCircuitIndex::ComputeVCircuit);
            assert_eq!(rxs.len(), 4);
        }
        _ => panic!("expected an internal circuit claim"),
    }
    // Stages follow, one claim each over both proofs.
    match &claims[14] {
        Claim::Bonding(id, _) => assert_eq!(*id, InternalCircuitIndex::PreambleStage),
        _ => panic!("expected a stage claim"),
    }
    assert_eq!(claim_values(&claims[14]), vec![fp(1000 + pre), fp(2000 + pre)]);
    // The final staged claim of the outer error chains three components.
    let h2 = RxIndex::Hashes2.index() as u64;
    let oc = RxIndex::OuterCollapse.index() as u64;
    match &claims[20] {
        Claim::Bonding(id, _) => assert_eq!(*id, InternalCircuitIndex::OuterErrorFinalStaged),
        _ => panic!("expected a stage claim"),
    }
    assert_eq!(
        claim_values(&claims[20]),
        vec![fp(1000 + h1), fp(2000 + h1), fp(1000 + h2), fp(2000 + h2), fp(1000 + oc), fp(2000 + oc)]
    );
}

#[test]
fn claim_order_matches_ky_order() {
    let mut dr = Simulator::new();
    let query = query_output(&mut dr);
    let source = EvaluationSource { left: &query.left, right: &query.right };
    let claims = build(&source);
    let left = ChildKyOutputs { application: constant(&mut dr, 31), unified: constant(&mut dr, 32), unified_bridge: constant(&mut dr, 33) };
    let right = ChildKyOutputs { application: constant(&mut dr, 41), unified: constant(&mut dr, 42), unified_bridge: constant(&mut dr, 43) };
    let lc = constant(&mut dr, 11);
    let rc = constant(&mut dr, 12);
    let ky = TwoProofKySource::new(&mut dr, lc, rc, &left, &right);
    let values = ky_values(&ky, claims.len());
    for (i, claim) in claims.iter().enumerate() {
        let side_left = i % 2 == 0;
        let expected = match claim {
            Claim::Raw(..) => if side_left { 11 } else { 12 },
            Claim::Circuit(..) => if side_left { 31 } else { 41 },
            Claim::Internal(InternalCircuitIndex::Hashes1Circuit, _) => if side_left { 33 } else { 43 },
            Claim::Internal(..) => if side_left { 32 } else { 42 },
            Claim::Bonding(..) => 0,
        };
        assert_eq!(values[i].value(), fp(expected), "claim {}", i);
    }
}

#[test]
fn evaluation_processor_entries() {
    let mut dr = Simulator::new();
    let registry: Vec<Element> = (0..NUM_INTERNAL as u64).map(|k| constant(&mut dr, 50 + k)).collect();
    let registry = InternalCircuitValues::new(registry).unwrap();
    let z = constant(&mut dr, 3);
    let txz = constant(&mut dr, 1000);
    let mut p = EvaluationProcessor::new(&z, &txz, &registry);
    let a = constant(&mut dr, 5);
    let b = constant(&mut dr, 6);
    p.raw_claim(&a, &b);
    let sy = constant(&mut dr, 7);
    let rx = constant(&mut dr, 8);
    p.circuit_claim(&mut dr, &sy, &rx);
    let rxs = vec![constant(&mut dr, 1), constant(&mut dr, 2), constant(&mut dr, 4)];
    p.internal_circuit_claim(&mut dr, InternalCircuitIndex::Hashes2Circuit, &rxs);
    p.bonding_claim(&mut dr, InternalCircuitIndex::QueryStage, &rxs).unwrap();
    let (ax, bx) = p.build();
    let ax: Vec<Fp> = ax.iter().map(|e| e.value()).collect();
    let bx: Vec<Fp> = bx.iter().map(|e| e.value()).collect();
    // fold of (1, 2, 4) by 3: 1 * 9 + 2 * 3 + 4 = 19.
    assert_eq!(ax, vec![fp(5), fp(8), fp(7), fp(19)]);
    let h2 = InternalCircuitIndex::Hashes2Circuit.index() as u64;
    let qs = InternalCircuitIndex::QueryStage.index() as u64;
    assert_eq!(bx, vec![fp(6), fp(8 + 7 + 1000), fp(7 + 50 + h2 + 1000), fp(50 + qs)]);
    assert_eq!(dr.num_gates(), 2);
}

#[test]
fn evaluation_processor_stops_at_failing_stage_claim() {
    let mut dr = Simulator::new();
    let registry: Vec<Element> = (0..NUM_INTERNAL as u64).map(|k| constant(&mut dr, 50 + k)).collect();
    let registry = InternalCircuitValues::new(registry).unwrap();
    let z = constant(&mut dr, 3);
    let txz = constant(&mut dr, 1000);
    let mut p = EvaluationProcessor::new(&z, &txz, &registry);
    let a = constant(&mut dr, 5);
    let b = constant(&mut dr, 6);
    let bad = Element::promote(fp(1), fp(2));
    let claims = vec![
        Claim::Raw(a, b),
        Claim::Bonding(InternalCircuitIndex::QueryStage, vec![bad, constant(&mut dr, 4)]),
        Claim::Raw(b, a),
    ];
    let r = p.process(&mut dr, &claims);
    assert!(matches!(r, Err(Error::InvalidWitness(WitnessError::ConstraintFailed))));
    // Only the claim before the failing one was processed.
    let (ax, bx) = p.build();
    let ax: Vec<Fp> = ax.iter().map(|e| e.value()).collect();
    let bx: Vec<Fp> = bx.iter().map(|e| e.value()).collect();
    assert_eq!(ax, vec![fp(5)]);
    assert_eq!(bx, vec![fp(6)]);
}

#[test]
fn evaluation_processor_single_trace_stage_claim_needs_no_product() {
    let mut dr = Simulator::new();
    let registry: Vec<Element> = (0..NUM_INTERNAL as u64).map(|k| constant(&mut dr, 50 + k)).collect();
    let registry = InternalCircuitValues::new(registry).unwrap();
    let z = constant(&mut dr, 3);
    let txz = constant(&mut dr, 1000);
    let mut p = EvaluationProcessor::new(&z, &txz, &registry);
    let bad = Element::promote(fp(1), fp(2));
    let claims = vec![Claim::Bonding(InternalCircuitIndex::QueryStage, vec![bad])];
    assert!(p.process(&mut dr, &claims).is_ok());
    let (ax, _) = p.build();
    assert_eq!(ax[0].value(), fp(2));
}

/// Folds `items` in two layers with groups of `m`, padding each group and
/// the list of group results with zeros.
fn fold_two_layer_native(items: &[Fp], m: usize, n: usize, s1: &Fp, s2: &Fp) -> Fp {
    let groups = std::cmp::max(n, (items.len() + m - 1) / m);
    let mut results = Vec::new();
    for g in 0..groups {
        let chunk: Vec<Fp> = (0..m).map(|k| items.get(g * m + k).copied().unwrap_or(fp(0))).collect();
        results.push(fold(&chunk, s1));
    }
    fold(&results, s2)
}

#[test]
fn compute_axbx_folds_the_claim_vectors() {
    type P = TestParams<3, 8>;
    let mut dr = Simulator::new();
    let query = query_output(&mut dr);
    let z = constant(&mut dr, 3);
    let txz = constant(&mut dr, 17);
    let (mu_inv, mu_prime_inv, munu, mpnp) =
        (constant(&mut dr, 5), constant(&mut dr, 7), constant(&mut dr, 11), constant(&mut dr, 13));
    let (ax, bx) = compute_axbx::<P>(&mut dr, &query, &z, &txz, &mu_inv, &mu_prime_inv, &munu, &mpnp).unwrap();

    // Rebuild the vectors natively from the claims.
    let source = EvaluationSource { left: &query.left, right: &query.right };
    let claims = build(&source);
    let mut ax_v = Vec::new();
    let mut bx_v = Vec::new();
    for c in &claims {
        match c {
            Claim::Raw(a, b) => {
                ax_v.push(a.value());
                bx_v.push(b.value());
            }
            Claim::Circuit(sy, rx) => {
                ax_v.push(rx.value());
                bx_v.push(rx.value().add(&sy.value()).add(&fp(17)));
            }
            Claim::Internal(id, rxs) => {
                let sum = rxs.iter().fold(fp(0), |acc, e| acc.add(&e.value()));
                ax_v.push(sum);
                bx_v.push(sum.add(&query.fixed_registry.get(*id).value()).add(&fp(17)));
            }
            Claim::Bonding(id, rxs) => {
                let vals: Vec<Fp> = rxs.iter().map(|e| e.value()).collect();
                ax_v.push(fold(&vals, &fp(3)));
                bx_v.push(query.fixed_registry.get(*id).value());
            }
        }
    }
    assert_eq!(ax.value(), fold_two_layer_native(&ax_v, 8, 3, &fp(5), &fp(7)));
    assert_eq!(bx.value(), fold_two_layer_native(&bx_v, 8, 3, &fp(11), &fp(13)));
}

fn preamble_output(dr: &mut Simulator) -> PreambleOutput {
    let child = |dr: &mut Simulator, base: u64| ChildPreamble {
        unified: ChildUnified {
            u: constant(dr, base + 1),
            y: constant(dr, base + 2),
            x: constant(dr, base + 3),
            v: constant(dr, base + 4),
        },
        circuit_id: constant(dr, base + 5),
    };
    PreambleOutput { left: child(dr, 100), right: child(dr, 200) }
}

fn internal_points() -> InternalCircuitValues<Fp> {
    InternalCircuitValues::new((0..NUM_INTERNAL as u64).map(|k| fp(300 + k)).collect()).unwrap()
}

#[test]
fn denominators_invert_the_differences() {
    let mut dr = Simulator::new();
    let preamble = preamble_output(&mut dr);
    let (u, w, x, y, z) =
        (constant(&mut dr, 1), constant(&mut dr, 20), constant(&mut dr, 30), constant(&mut dr, 40), constant(&mut dr, 50));
    let points = internal_points();
    let d = Denominators::new(&mut dr, &u, &w, &x, &y, &z, &preamble, &points).unwrap();
    let check = |den: &Element, point: Fp| assert_eq!(den.value().mul(&fp(1).sub(&point)), fp(1));
    check(&d.left.u, fp(101));
    check(&d.left.circuit_id, fp(105));
    check(&d.right.y, fp(202));
    check(&d.challenges.w, fp(20));
    check(&d.challenges.xz, fp(1500));
    check(d.internal.get(InternalCircuitIndex::EvalFinalStaged), fp(312));
    assert_eq!(dr.num_gates(), 26);
}

#[test]
fn denominators_reject_a_point_equal_to_u() {
    let mut dr = Simulator::new();
    let preamble = preamble_output(&mut dr);
    let (u, w, x, y, z) =
        (constant(&mut dr, 40), constant(&mut dr, 20), constant(&mut dr, 30), constant(&mut dr, 40), constant(&mut dr, 50));
    let points = internal_points();
    assert!(Denominators::new(&mut dr, &u, &w, &x, &y, &z, &preamble, &points).is_err());
}

fn eval_witness() -> EvalWitness<Fp> {
    let child = |base: u64| ChildEvaluationsWitness {
        rx: RxValues::new((0..NUM_RX as u64).map(|k| fp(base + k)).collect()).unwrap(),
        a_poly: fp(base + 20),
        b_poly: fp(base + 21),
        registry_xy_poly: fp(base + 22),
        p_poly: fp(base + 23),
    };
    EvalWitness {
        left: child(600),
        right: child(700),
        current: CurrentStepWitness {
            registry_wx0: fp(801),
            registry_wx1: fp(802),
            registry_wy: fp(803),
            a_poly: fp(804),
            b_poly: fp(805),
            registry_xy: fp(806),
        },
    }
}

#[test]
fn eval_stage_allocates_every_evaluation() {
    assert_eq!(EvalStage::values(), 36);
    let mut dr = Simulator::new();
    let out = EvalStage.witness(&mut dr, &eval_witness()).unwrap();
    assert_eq!(dr.num_gates(), EvalStage::values());
    let written: Vec<Fp> = out.write().iter().map(|e| e.value()).collect();
    assert_eq!(written.len(), 36);
    assert_eq!(written[0], fp(600));
    assert_eq!(written[11], fp(620));
    assert_eq!(written[14], fp(623));
    assert_eq!(written[15], fp(700));
    assert_eq!(written[35], fp(806));
}

#[test]
fn poly_queries_pair_evaluations_with_denominators() {
    let mut dr = Simulator::new();
    let preamble = preamble_output(&mut dr);
    let query = query_output(&mut dr);
    let eval = EvalStage.witness(&mut dr, &eval_witness()).unwrap();
    let (u, w, x, y, z) =
        (constant(&mut dr, 1), constant(&mut dr, 20), constant(&mut dr, 30), constant(&mut dr, 40), constant(&mut dr, 50));
    let d = Denominators::new(&mut dr, &u, &w, &x, &y, &z, &preamble, &internal_points()).unwrap();
    let ax = constant(&mut dr, 77);
    let bx = constant(&mut dr, 88);
    let qs = poly_queries(&eval, &query, &preamble, &d, &ax, &bx);
    assert_eq!(qs.len(), 55);
    assert_eq!((qs[0].0.value(), qs[0].1.value(), qs[0].2.value()), (fp(623), fp(104), d.left.u.value()));
    assert_eq!((qs[18].0.value(), qs[18].1.value(), qs[18].2.value()), (fp(804), fp(77), d.challenges.xz.value()));
    assert_eq!((qs[19].0.value(), qs[19].1.value(), qs[19].2.value()), (fp(805), fp(88), d.challenges.x.value()));
    assert_eq!((qs[20].0.value(), qs[20].1.value()), (fp(600), fp(1000)));
    assert_eq!((qs[54].0.value(), qs[54].1.value(), qs[54].2.value()), (fp(806), fp(7012), fp(1).sub(&fp(312)).invert().unwrap()));
}

#[test]
fn compute_v_matches_the_native_computation() {
    type P = TestParams<3, 8>;
    let mut dr = Simulator::new();
    let preamble = preamble_output(&mut dr);
    let query = query_output(&mut dr);
    let eval = EvalStage.witness(&mut dr, &eval_witness()).unwrap();
    let ch = VChallenges {
        w: constant(&mut dr, 20),
        y: constant(&mut dr, 40),
        z: constant(&mut dr, 50),
        x: constant(&mut dr, 30),
        mu: constant(&mut dr, 9),
        nu: constant(&mut dr, 10),
        mu_prime: constant(&mut dr, 11),
        nu_prime: constant(&mut dr, 12),
        alpha: constant(&mut dr, 13),
        u: constant(&mut dr, 1),
        pre_beta: constant(&mut dr, 14),
    };
    let txz = constant(&mut dr, 15);
    let points = internal_points();
    let mut alloc = ragu::allocator::Standard::new();
    let before = dr.num_gates();
    let witness = ComputeVWitness { unified: ch, txz, preamble: &preamble, query: &query, eval: &eval, points: &points };
    let v = ComputeV::<P>::new().witness(&mut dr, &mut alloc, &witness).unwrap();
    assert!(dr.num_gates() > before);

    // The same computation natively, from the library's pieces.
    let mut d2 = Simulator::new();
    let inv = |v: u64| fp(v).invert().unwrap();
    let mu_inv = Element::constant(&mut d2, inv(9));
    let mu_prime_inv = Element::constant(&mut d2, inv(11));
    let munu = Element::constant(&mut d2, fp(90));
    let mpnp = Element::constant(&mut d2, fp(132));
    let (ax, bx) = compute_axbx::<P>(&mut d2, &query, &ch.z, &txz, &mu_inv, &mu_prime_inv, &munu, &mpnp).unwrap();
    let d = Denominators::new(&mut d2, &ch.u, &ch.w, &ch.x, &ch.y, &ch.z, &preamble, &points).unwrap();
    let qs = poly_queries(&eval, &query, &preamble, &d, &ax, &bx);
    let terms: Vec<Fp> = qs.iter().map(|(p, v, den)| p.value().sub(&v.value()).mul(&den.value())).collect();
    let fu = fold(&terms, &fp(13));
    let beta = lift_endoscalar(extract_endoscalar(fp(14)));
    let mut weighted = vec![fu];
    weighted.extend(eval.write().iter().map(|e| e.value()));
    assert_eq!(v.value(), fold(&weighted, &beta));
}

#[test]
fn compute_v_rejects_a_zero_mu() {
    type P = TestParams<3, 8>;
    let mut dr = Simulator::new();
    let preamble = preamble_output(&mut dr);
    let query = query_output(&mut dr);
    let eval = EvalStage.witness(&mut dr, &eval_witness()).unwrap();
    let zero = constant(&mut dr, 0);
    let one = constant(&mut dr, 1);
    let ch = VChallenges {
        w: one, y: one, z: one, x: one, mu: zero, nu: one, mu_prime: one, nu_prime: one, alpha: one, u: one,
        pre_beta: one,
    };
    let mut alloc = ragu::allocator::Standard::new();
    let points = internal_points();
    let witness = ComputeVWitness { unified: ch, txz: one, preamble: &preamble, query: &query, eval: &eval, points: &points };
    let r = ComputeV::<P>::new().witness(&mut dr, &mut alloc, &witness);
    assert!(r.is_err());
}

type P38 = TestParams<3, 8>;

/// The stage witnesses for claims `a[i] = k(y)_i`, `b[i] = 1`, whose error
/// terms are `a[i] b[j] = a[i]`, with the first layer folded by `mu` and
/// `nu`; the second layer's error terms are those of `collapsed[i]` and `1`.
fn collapse_witnesses(mu: u64, nu: u64) -> (InnerErrorWitness<P38>, OuterErrorWitness<P38, ConstLen<2>>, Vec<Fp>) {
    let ky: Vec<u64> = vec![11, 12, 31, 41, 33, 43, 32, 42, 32, 42, 32, 42, 32, 42];
    let a: Vec<Fp> = (0..24).map(|i| fp(*ky.get(i).unwrap_or(&0))).collect();
    let x = fp(mu).invert().unwrap();
    let y = fp(mu).mul(&fp(nu));
    let pairs = off_diagonal_pairs(8);
    let mut groups = Vec::new();
    let mut collapsed = Vec::new();
    for g in 0..3 {
        let chunk: Vec<Fp> = a[g * 8..(g + 1) * 8].to_vec();
        let terms: Vec<Fp> = pairs.iter().map(|&(i, _)| chunk[i]).collect();
        groups.push(FixedVec::new(terms).unwrap());
        collapsed.push(fold(&chunk, &x).mul(&fold(&vec![fp(1); 8], &y)));
    }
    let inner = InnerErrorWitness { error_terms: FixedVec::new(groups).unwrap() };
    let outer_errors: Vec<Fp> = off_diagonal_pairs(3).iter().map(|&(i, _)| collapsed[i]).collect();
    let ky_child = |b: u64| ChildKyValues { application: fp(b + 1), unified: fp(b + 2), unified_bridge: fp(b + 3) };
    let outer = OuterErrorWitness {
        error_terms: FixedVec::new(outer_errors).unwrap(),
        collapsed: FixedVec::new(collapsed.clone()).unwrap(),
        ky: KyValues { left: ky_child(30), right: ky_child(40) },
        sponge_state_elements: FixedVec::new(vec![fp(0), fp(0)]).unwrap(),
    };
    (inner, outer, collapsed)
}

#[test]
fn inner_collapse_accepts_consistent_folds() {
    let (inner, outer, _) = collapse_witnesses(5, 7);
    let witness = InnerCollapseWitness {
        mu: fp(5),
        nu: fp(7),
        left_c: fp(11),
        right_c: fp(12),
        inner_error_witness: &inner,
        outer_error_witness: &outer,
    };
    let mut dr = Simulator::new();
    InnerCollapse::<P38, ConstLen<2>>::new().witness(&mut dr, &witness).unwrap();
    // Stages: 6 + 3 + 6 + 2 and 3 * 56 values; 4 challenges; 2 gates for the
    // folding context and 63 per group.
    assert_eq!(dr.num_gates(), 17 + 168 + 4 + 2 + 3 * 63);
    assert_eq!(dr.num_constraints(), 4 + 3 * (2 * 63 + 1));
}

#[test]
fn inner_collapse_rejects_a_wrong_collapsed_value() {
    let (inner, outer, collapsed) = collapse_witnesses(5, 7);
    let mut wrong = collapsed.clone();
    wrong[1] = wrong[1].add(&fp(1));
    let outer = OuterErrorWitness { collapsed: FixedVec::new(wrong).unwrap(), ..outer };
    let witness = InnerCollapseWitness {
        mu: fp(5),
        nu: fp(7),
        left_c: fp(11),
        right_c: fp(12),
        inner_error_witness: &inner,
        outer_error_witness: &outer,
    };
    let mut dr = Simulator::new();
    assert!(InnerCollapse::<P38, ConstLen<2>>::new().witness(&mut dr, &witness).is_err());
}

#[test]
fn inner_collapse_rejects_wrong_ky_values() {
    let (inner, outer, _) = collapse_witnesses(5, 7);
    let witness = InnerCollapseWitness {
        mu: fp(5),
        nu: fp(7),
        left_c: fp(12),
        right_c: fp(11),
        inner_error_witness: &inner,
        outer_error_witness: &outer,
    };
    let mut dr = Simulator::new();
    assert!(InnerCollapse::<P38, ConstLen<2>>::new().witness(&mut dr, &witness).is_err());
}

#[test]
fn inner_collapse_rejects_a_zero_mu() {
    let (inner, outer, _) = collapse_witnesses(5, 7);
    let witness = InnerCollapseWitness {
        mu: fp(0),
        nu: fp(7),
        left_c: fp(11),
        right_c: fp(12),
        inner_error_witness: &inner,
        outer_error_witness: &outer,
    };
    let mut dr = Simulator::new();
    assert!(InnerCollapse::<P38, ConstLen<2>>::new().witness(&mut dr, &witness).is_err());
}

#[test]
fn outer_collapse_checks_c_unless_base_case() {
    let (_, outer, collapsed) = collapse_witnesses(5, 7);
    let x = fp(19).invert().unwrap();
    let y = fp(19).mul(&fp(23));
    let c = fold(&collapsed, &x).mul(&fold(&vec![fp(1); 3], &y));
    let run = |c: Fp, is_base_case: bool| {
        let witness = OuterCollapseWitness { mu_prime: fp(19), nu_prime: fp(23), c, is_base_case, outer_error_witness: &outer };
        let mut dr = Simulator::new();
        let r = OuterCollapse::<P38, ConstLen<2>>::new().witness(&mut dr, &witness);
        (r.is_ok(), dr.num_gates())
    };
    // Stage: 17 values; 3 values and a boolean; 2 + 8 gates of folding and
    // one for the conditional equality.
    assert_eq!(run(c, false), (true, 17 + 4 + 2 + 8 + 1));
    assert!(!run(c.add(&fp(1)), false).0);
    assert!(run(c.add(&fp(1)), true).0);
    let witness = OuterCollapseWitness { mu_prime: fp(0), nu_prime: fp(23), c, is_base_case: true, outer_error_witness: &outer };
    let mut dr = Simulator::new();
    assert!(OuterCollapse::<P38, ConstLen<2>>::new().witness(&mut dr, &witness).is_err());
}

#[test]
fn error_stages_allocate_their_witnesses() {
    type P = TestParams<3, 4>;
    assert_eq!(InnerErrorStage::<P>::values(), 3 * 12);
    assert_eq!(OuterErrorStage::<P, ConstLen<5>>::values(), 6 + 3 + 6 + 5);
    assert_eq!(NumErrorTerms::<ConstLen<4>>::len(), 12);

    let mut dr = Simulator::new();
    let groups: Vec<FixedVec<Fp, NumErrorTerms<ConstLen<4>>>> =
        (0..3u64).map(|g| FixedVec::new((0..12u64).map(|j| fp(g * 100 + j)).collect()).unwrap()).collect();
    let witness = InnerErrorWitness::<P> { error_terms: FixedVec::new(groups).unwrap() };
    let out = InnerErrorStage::<P>::new().witness(&mut dr, &witness).unwrap();
    assert_eq!(dr.num_gates(), 36);
    assert_eq!(out.error_terms.get(2).get(5).value(), fp(205));

    let mut dr = Simulator::new();
    let ky = |b: u64| ChildKyValues { application: fp(b), unified: fp(b + 1), unified_bridge: fp(b + 2) };
    let witness = OuterErrorWitness::<P, ConstLen<5>> {
        error_terms: FixedVec::new((0..6u64).map(fp).collect()).unwrap(),
        collapsed: FixedVec::new((10..13u64).map(fp).collect()).unwrap(),
        ky: KyValues { left: ky(20), right: ky(30) },
        sponge_state_elements: FixedVec::new((40..45u64).map(fp).collect()).unwrap(),
    };
    let out = OuterErrorStage::<P, ConstLen<5>>::new().witness(&mut dr, &witness).unwrap();
    assert_eq!(dr.num_gates(), 20);
    assert_eq!(out.collapsed.get(2).value(), fp(12));
    assert_eq!(out.right.unified_bridge.value(), fp(32));
    assert_eq!(out.sponge_state.get(4).value(), fp(44));
}

#[test]
fn prover_outer_error_witness_passes_both_collapses() {
    // Claims a[i] = (r_i, k_i) and b[i] = (1, 0): each revdot a[i] b[j] is
    // k_i, so the error terms are k_i and the k(y) values k_i, and the
    // claims are honest.
    let ky: Vec<u64> = vec![11, 12, 31, 41, 33, 43, 32, 42, 32, 42, 32, 42, 32, 42];
    let k: Vec<Fp> = (0..24).map(|i| fp(*ky.get(i).unwrap_or(&0))).collect();
    let a: Vec<Polynomial> = (0..24).map(|i| Polynomial::new(vec![fp(1000 + i as u64), k[i]])).collect();
    let b: Vec<Polynomial> = (0..24).map(|_| Polynomial::new(vec![fp(1), fp(0)])).collect();
    let pairs = off_diagonal_pairs(8);
    let groups: Vec<FixedVec<Fp, NumErrorTerms<ConstLen<8>>>> = (0..3)
        .map(|g| FixedVec::new(pairs.iter().map(|&(i, j)| a[g * 8 + i].revdot(&b[g * 8 + j])).collect()).unwrap())
        .collect();
    let inner = InnerErrorWitness::<P38> { error_terms: FixedVec::new(groups).unwrap() };
    let ky_child = |b: u64| ChildKyValues { application: fp(b + 1), unified: fp(b + 2), unified_bridge: fp(b + 3) };
    let (outer, fa, fb) = ragu::fuse::outer_error::outer_error_terms::<P38, ConstLen<2>>(
        &fp(5),
        &fp(7),
        &fp(11),
        &fp(12),
        KyValues { left: ky_child(30), right: ky_child(40) },
        &inner,
        &a,
        &b,
        FixedVec::new(vec![fp(0), fp(0)]).unwrap(),
    )
    .unwrap();
    let x = fp(5).invert().unwrap();
    let y = fp(5).mul(&fp(7));
    for g in 0..3 {
        let point = fp(3);
        let a_evals: Vec<Fp> = a[g * 8..(g + 1) * 8].iter().map(|p| p.eval(&point)).collect();
        let b_evals: Vec<Fp> = b[g * 8..(g + 1) * 8].iter().map(|p| p.eval(&point)).collect();
        assert_eq!(fa.get(g).eval(&point), fold(&a_evals, &x));
        assert_eq!(fb.get(g).eval(&point), fold(&b_evals, &y));
        assert_eq!(*outer.collapsed.get(g), fa.get(g).revdot(fb.get(g)));
    }

    let witness = InnerCollapseWitness {
        mu: fp(5),
        nu: fp(7),
        left_c: fp(11),
        right_c: fp(12),
        inner_error_witness: &inner,
        outer_error_witness: &outer,
    };
    let mut dr = Simulator::new();
    InnerCollapse::<P38, ConstLen<2>>::new().witness(&mut dr, &witness).unwrap();

    let x2 = fp(19).invert().unwrap();
    let y2 = fp(19).mul(&fp(23));
    let c = fold_polys(fa.as_slice(), 2, &x2).revdot(&fold_polys(fb.as_slice(), 2, &y2));
    let witness = OuterCollapseWitness { mu_prime: fp(19), nu_prime: fp(23), c, is_base_case: false, outer_error_witness: &outer };
    let mut dr = Simulator::new();
    OuterCollapse::<P38, ConstLen<2>>::new().witness(&mut dr, &witness).unwrap();
}

#[test]
fn eval_stage_values_matches_wire_count() {
    let mut dr = Simulator::new();
    EvalStage.witness(&mut dr, &eval_witness()).unwrap();
    assert_eq!(dr.num_gates(), EvalStage::values());
}

#[test]
fn inner_error_stage_values_matches_wire_count() {
    let (inner, _, _) = collapse_witnesses(5, 7);
    let mut dr = Simulator::new();
    InnerErrorStage::<P38>::new().witness(&mut dr, &inner).unwrap();
    assert_eq!(dr.num_gates(), InnerErrorStage::<P38>::values());
}

#[test]
fn outer_error_stage_values_matches_wire_count() {
    let (_, outer, _) = collapse_witnesses(5, 7);
    let mut dr = Simulator::new();
    OuterErrorStage::<P38, ConstLen<2>>::new().witness(&mut dr, &outer).unwrap();
    assert_eq!(dr.num_gates(), OuterErrorStage::<P38, ConstLen<2>>::values());
}

#[test]
fn trivial_step_encodes_nothing() {
    let mut dr = Simulator::new();
    let (left, right, output) = Trivial::new().witness::<4>(&mut dr).unwrap();
    for e in [&left, &right, &output] {
        assert!(matches!(&e.0, EncodedInner::Gadget { content, .. } if content.is_empty()));
    }
    assert_eq!(dr.num_gates(), 0);
    // Written, each is the trivial header's suffix after zeros.
    let mut buf = Vec::new();
    left.write(&mut dr, &mut buf).unwrap();
    let values: Vec<Fp> = buf.iter().map(|e| e.value()).collect();
    assert_eq!(values, vec![fp(0), fp(0), fp(0), fp(1)]);
}

#[test]
fn rerandomize_preserves_the_left_header() {
    let mut dr = Simulator::new();
    let data = vec![fp(5), fp(6)];
    let ((left, right, output), out_data) = Rerandomize::<()>::new().witness::<4>(&mut dr, &data, Suffix::new(1)).unwrap();
    assert_eq!(out_data, data);
    let uniform = |e: &Encoded<4>| match &e.0 {
        EncodedInner::Uniform(v) => v.as_slice().iter().map(|x| x.value()).collect::<Vec<Fp>>(),
        _ => panic!("expected a uniform encoding"),
    };
    assert_eq!(uniform(&left), vec![fp(5), fp(6), fp(0), fp(3)]);
    assert_eq!(uniform(&output), uniform(&left));
    assert!(matches!(&right.0, EncodedInner::Gadget { content, .. } if content.is_empty()));
    // Four values with the pooling allocator: two gates.
    assert_eq!(dr.num_gates(), 2);
    let too_long = vec![fp(1), fp(2), fp(3), fp(4)];
    assert!(Rerandomize::<()>::new().witness::<4>(&mut dr, &too_long, Suffix::new(1)).is_err());
}

/// The value of a decomposition with each key standing for `source(key)`.
fn resolve_native(t: &TrackedPoly<FoldKey>, source: impl Fn(&FoldKey) -> Fp) -> Fp {
    t.decomp.terms.iter().fold(fp(0), |acc, (k, c)| acc.add(&c.mul(&source(k))))
}

/// The source polynomial of a key: `n + X` for a number `n` of the key.
fn source_poly(k: &FoldKey) -> Polynomial {
    let side = match k.0 {
        Side::Left => 100,
        Side::Right => 200,
    };
    let comp = match k.1 {
        RxComponent::AbA => 1,
        RxComponent::AbB => 2,
        RxComponent::Rx(i) => 10 + i.index() as u64,
    };
    Polynomial::new(vec![fp(side + comp), fp(1)])
}

#[test]
fn tracked_polys_resolve_to_their_polynomial() {
    let atom = |side: Side, c: RxComponent| Atom { key: (side, c), poly: source_poly(&(side, c)) };
    let h1 = RxComponent::Rx(RxIndex::Hashes1);
    let pre = RxComponent::Rx(RxIndex::Preamble);
    let x = fp(1000);
    let at_x = |k: &FoldKey| source_poly(k).eval(&x);
    let sum = TrackedPoly::sum(&[atom(Side::Left, h1), atom(Side::Left, pre), atom(Side::Right, h1)]);
    assert_eq!(sum.poly.eval(&x), fp(116 + 111 + 216 + 3000));
    assert_eq!(resolve_native(&sum, at_x), sum.poly.eval(&x));
    let single = TrackedPoly::single(source_poly(&(Side::Right, RxComponent::AbA)), (Side::Right, RxComponent::AbA));
    let items = vec![sum, single, TrackedPoly::sum(&[atom(Side::Left, RxComponent::AbB)])];
    let folded = fold_tracked(&items, &fp(3));
    let expected = fold(&items.iter().map(|t| t.poly.eval(&x)).collect::<Vec<Fp>>(), &fp(3));
    assert_eq!(folded.poly.eval(&x), expected);
    assert_eq!(resolve_native(&folded, at_x), expected);
    assert_eq!(folded.decomp.terms.len(), 5);
}

fn committed(coeffs: &[u64], commitment: u64) -> Committed<u64> {
    Committed { poly: Polynomial::new(coeffs.iter().map(|c| fp(*c)).collect()), commitment }
}

fn child_proof(base: u64) -> ChildProof<u64> {
    ChildProof {
        rx: RxValues::new((0..NUM_RX as u64).map(|k| committed(&[base + k, 1], base + k)).collect()).unwrap(),
        a_poly: committed(&[base + 20, 2, 3], base + 20),
        b_poly: committed(&[base + 21], base + 21),
        registry_xy_poly: committed(&[base + 22, 0, 0, 1], base + 22),
        p_poly: committed(&[base + 23, 5], base + 23),
    }
}

#[test]
fn polynomial_operations_evaluate_pointwise() {
    let mut a = Polynomial::new(vec![fp(1), fp(2), fp(3)]);
    let b = Polynomial::new(vec![fp(4), fp(5), fp(6), fp(7)]);
    let x = fp(10);
    assert_eq!(a.eval(&x), fp(321));
    assert_eq!(b.eval(&x), fp(7654));
    a.scale(&fp(2));
    assert_eq!(a.eval(&x), fp(642));
    a.add_assign(&b);
    assert_eq!(a.eval(&x), fp(642 + 7654));
    assert_eq!(a.coeffs, vec![fp(6), fp(9), fp(12), fp(7)]);
}

#[test]
fn accumulated_p_opens_to_the_weighted_evaluations() {
    let left = child_proof(600);
    let right = child_proof(700);
    let current = CurrentStep {
        registry_wx0: committed(&[801, 1], 801),
        registry_wx1: committed(&[802], 802),
        registry_wy: committed(&[803, 0, 2], 803),
        a_poly: committed(&[804], 804),
        b_poly: committed(&[805, 3], 805),
        registry_xy: committed(&[806], 806),
    };
    let f = committed(&[9, 8, 7], 1);
    let (p, points) = compute_p(&fp(14), &f, &left, &right, &current);
    assert_eq!(points.len(), 37);
    assert_eq!(points[0], 1);
    assert_eq!(points[1], 600);
    assert_eq!(points[12], 620);
    assert_eq!(points[16], 700);
    assert_eq!(points[36], 806);

    // The evaluation stage, from the evaluations at u, and the circuit's
    // weighing of f(u) and the stage's values.
    let u = fp(5);
    let current_evals = CurrentStepWitness {
        registry_wx0: current.registry_wx0.poly.eval(&u),
        registry_wx1: current.registry_wx1.poly.eval(&u),
        registry_wy: current.registry_wy.poly.eval(&u),
        a_poly: current.a_poly.poly.eval(&u),
        b_poly: current.b_poly.poly.eval(&u),
        registry_xy: current.registry_xy.poly.eval(&u),
    };
    let witness = EvalWitness {
        left: ChildEvaluationsWitness::from_proof(&left, &u),
        right: ChildEvaluationsWitness::from_proof(&right, &u),
        current: current_evals,
    };
    let mut dr = Simulator::new();
    let eval = EvalStage.witness(&mut dr, &witness).unwrap();
    let beta = lift_endoscalar(extract_endoscalar(fp(14)));
    let mut weighted = vec![f.poly.eval(&u)];
    weighted.extend(eval.write().iter().map(|e| e.value()));
    assert_eq!(p.eval(&u), fold(&weighted, &beta));
}
