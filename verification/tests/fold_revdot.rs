use ragu::allocator::Standard;
use ragu::element::Element;
use ragu::field::Fp;
use ragu::fold_revdot::{
    fold_inner, fold_outer, fold_polys, fold_two_layer, inner_error_terms, off_diagonal_pairs, outer_error_terms,
    ClaimFolder, NumErrorTerms, Parameters,
};
use ragu::polynomial::Polynomial;
use ragu::simulator::Simulator;
use ragu::vec::{ConstLen, FixedVec, Len};

/// Parameters with `N` groups of `M` claims.
struct TestParams<const N: usize, const M: usize>;

impl<const N: usize, const M: usize> Parameters for TestParams<N, M> {
    type NumGroups = ConstLen<N>;
    type GroupSize = ConstLen<M>;
}

fn random_fp() -> Fp {
    let a = Fp::from_u128(rand::random::<u128>());
    let b = Fp::from_u128(rand::random::<u128>());
    a.mul(&Fp::from_u128(u128::MAX)).add(&b)
}

fn random_vec(count: usize) -> Vec<Fp> {
    (0..count).map(|_| random_fp()).collect()
}

fn constants<L: Len>(dr: &mut Simulator, values: &[Fp]) -> FixedVec<Element, L> {
    FixedVec::new(values.iter().map(|v| Element::constant(dr, *v)).collect()).unwrap()
}

/// The number of coefficients of the test polynomials.
const SIZE: usize = 16;

fn random_poly() -> Polynomial {
    Polynomial::new(random_vec(SIZE))
}

fn random_polys(count: usize) -> Vec<Polynomial> {
    (0..count).map(|_| random_poly()).collect()
}

/// The pairing of two claims: the reversed dot product of the polynomials.
fn revdot(a: &Polynomial, b: &Polynomial) -> Fp {
    a.revdot(b)
}

#[test]
fn test_revdot_folding() {
    type P = TestParams<3, 3>;
    let n = <P as Parameters>::NumGroups::len();
    let lhs = random_polys(n);
    let rhs = random_polys(n);
    let ky: Vec<Fp> = lhs.iter().zip(&rhs).map(|(l, r)| revdot(l, r)).collect();
    let error = outer_error_terms::<P>(&lhs, &rhs);

    let mu = random_fp();
    let nu = random_fp();
    let mu_inv = mu.invert().unwrap();
    let munu = mu.mul(&nu);
    let folded_lhs = fold_polys(&lhs, SIZE, &mu_inv);
    let folded_rhs = fold_polys(&rhs, SIZE, &munu);

    let mut dr = Simulator::new();
    let mu_elem = Element::constant(&mut dr, mu);
    let nu_elem = Element::constant(&mut dr, nu);
    let error_terms = constants::<NumErrorTerms<ConstLen<3>>>(&mut dr, error.as_slice());
    let ky_values = constants::<ConstLen<3>>(&mut dr, &ky);
    let folder = ClaimFolder::new(&mut dr, &mu_elem, &nu_elem).unwrap();
    let result = folder.fold_outer::<P>(&mut dr, &error_terms, &ky_values).unwrap();
    assert_eq!(
        revdot(&folded_lhs, &folded_rhs),
        result.value(),
        "Folded polynomials should produce the same c as ClaimFolder"
    );
}

fn verify_variable_size(count: usize) {
    type P = TestParams<6, 5>;
    let m = 5;
    let n = 6;
    let lhs = random_polys(count);
    let rhs = random_polys(count);
    let ky_values: Vec<Fp> = lhs.iter().zip(&rhs).map(|(l, r)| revdot(l, r)).collect();
    let mu = random_fp();
    let nu = random_fp();
    let mu_inv = mu.invert().unwrap();
    let munu = mu.mul(&nu);

    let inner_error = inner_error_terms::<P>(&lhs, &rhs);
    let folded_lhs = fold_inner::<P>(&lhs, &mu_inv);
    let folded_rhs = fold_inner::<P>(&rhs, &munu);

    let mut dr = Simulator::new();
    let mu_elem = Element::constant(&mut dr, mu);
    let nu_elem = Element::constant(&mut dr, nu);
    let folder = ClaimFolder::new(&mut dr, &mu_elem, &nu_elem).unwrap();
    for g in 0..n {
        let expected = revdot(folded_lhs.get(g), folded_rhs.get(g));
        let ky_start = g * m;
        let ky_end = (ky_start + m).min(count);
        let ky_group: Vec<Fp> = (0..m)
            .map(|i| if ky_start + i < ky_end { ky_values[ky_start + i] } else { Fp::from_u64(0) })
            .collect();
        let ky_group = constants::<ConstLen<5>>(&mut dr, &ky_group);
        let error_group = constants::<NumErrorTerms<ConstLen<5>>>(&mut dr, inner_error.get(g).as_slice());
        let computed = folder.fold_inner::<P>(&mut dr, &error_group, &ky_group).unwrap();
        assert_eq!(
            expected,
            computed.value(),
            "Layer 1 group {} invariant failed for count={}",
            g,
            count
        );
    }
}

#[test]
fn test_fold_polys_variable_sizes() {
    for count in [1, 2, 5, 7, 10, 15, 20, 25, 29, 30] {
        verify_variable_size(count);
    }
}

fn measure_outer<const N: usize>() -> usize {
    let mut dr = Simulator::new();
    let mu = Element::constant(&mut dr, random_fp());
    let nu = Element::constant(&mut dr, random_fp());
    let error_terms = constants::<NumErrorTerms<ConstLen<N>>>(&mut dr, &random_vec(N * N - N));
    let ky_values = constants::<ConstLen<N>>(&mut dr, &random_vec(N));
    let folder = ClaimFolder::new(&mut dr, &mu, &nu).unwrap();
    folder.fold_outer::<TestParams<N, 1>>(&mut dr, &error_terms, &ky_values).unwrap();
    dr.num_gates()
}

#[test]
fn test_fold_products_constraints() {
    assert_eq!(measure_outer::<5>(), 26);
    assert_eq!(measure_outer::<15>(), 226);
    assert_eq!(measure_outer::<30>(), 901);
    assert_eq!(measure_outer::<60>(), 3601);
}

fn verify_multireduce<const N: usize, const M: usize>() {
    let count = N * M;
    let lhs = random_polys(count);
    let rhs = random_polys(count);
    let ky_values: Vec<Fp> = lhs.iter().zip(&rhs).map(|(l, r)| revdot(l, r)).collect();
    let mu = random_fp();
    let nu = random_fp();
    let mu_inv = mu.invert().unwrap();
    let munu = mu.mul(&nu);
    let inner_error = inner_error_terms::<TestParams<N, M>>(&lhs, &rhs);
    let folded_lhs = fold_inner::<TestParams<N, M>>(&lhs, &mu_inv);
    let folded_rhs = fold_inner::<TestParams<N, M>>(&rhs, &munu);

    let mut dr = Simulator::new();
    let mu_elem = Element::allocate(&mut dr, &mut (), mu).unwrap();
    let nu_elem = Element::allocate(&mut dr, &mut (), nu).unwrap();
    let folder = ClaimFolder::new(&mut dr, &mu_elem, &nu_elem).unwrap();
    let mut collapsed = Vec::new();
    for group in 0..N {
        let errors: Vec<Element> = inner_error
            .get(group)
            .as_slice()
            .iter()
            .map(|e| Element::allocate(&mut dr, &mut (), *e).unwrap())
            .collect();
        let ky: Vec<Element> = (0..M)
            .map(|i| Element::allocate(&mut dr, &mut (), ky_values[group * M + i]).unwrap())
            .collect();
        let errors = FixedVec::<Element, NumErrorTerms<ConstLen<M>>>::new(errors).unwrap();
        let ky = FixedVec::<Element, ConstLen<M>>::new(ky).unwrap();
        let v = folder.fold_inner::<TestParams<N, M>>(&mut dr, &errors, &ky).unwrap();
        collapsed.push(v.value());
    }
    for i in 0..N {
        assert_eq!(
            revdot(folded_lhs.get(i), folded_rhs.get(i)),
            collapsed[i],
            "Layer 1 group {} invariant failed",
            i
        );
    }

    let mu_prime = random_fp();
    let nu_prime = random_fp();
    let mu_prime_inv = mu_prime.invert().unwrap();
    let mu_prime_nu_prime = mu_prime.mul(&nu_prime);
    let outer_error = outer_error_terms::<TestParams<N, M>>(folded_lhs.as_slice(), folded_rhs.as_slice());
    let final_lhs = fold_outer::<TestParams<N, M>>(folded_lhs, &mu_prime_inv);
    let final_rhs = fold_outer::<TestParams<N, M>>(folded_rhs, &mu_prime_nu_prime);

    let mut dr = Simulator::new();
    let mu_prime = Element::allocate(&mut dr, &mut (), mu_prime).unwrap();
    let nu_prime = Element::allocate(&mut dr, &mut (), nu_prime).unwrap();
    let folder = ClaimFolder::new(&mut dr, &mu_prime, &nu_prime).unwrap();
    let error_terms = constants::<NumErrorTerms<ConstLen<N>>>(&mut dr, outer_error.as_slice());
    let collapsed = constants::<ConstLen<N>>(&mut dr, &collapsed);
    let final_c = folder.fold_outer::<TestParams<N, M>>(&mut dr, &error_terms, &collapsed).unwrap();
    assert_eq!(revdot(&final_lhs, &final_rhs), final_c.value(), "Final folding invariant failed");
}

#[test]
fn test_multireduce() {
    verify_multireduce::<2, 2>();
    verify_multireduce::<3, 3>();
    verify_multireduce::<4, 3>();
    verify_multireduce::<3, 4>();
}

fn verify_two_layer<const N: usize, const M: usize>(count: usize) {
    let lhs = random_polys(count);
    let rhs = random_polys(count);
    let x = random_fp();
    let mu = random_fp();
    let nu = random_fp();
    let mu_prime = random_fp();
    let nu_prime = random_fp();
    let mu_inv = mu.invert().unwrap();
    let mu_prime_inv = mu_prime.invert().unwrap();
    let munu = mu.mul(&nu);
    let mu_prime_nu_prime = mu_prime.mul(&nu_prime);

    let expected_lhs =
        fold_outer::<TestParams<N, M>>(fold_inner::<TestParams<N, M>>(&lhs, &mu_inv), &mu_prime_inv).eval(&x);
    let expected_rhs =
        fold_outer::<TestParams<N, M>>(fold_inner::<TestParams<N, M>>(&rhs, &munu), &mu_prime_nu_prime).eval(&x);

    let mut dr = Simulator::new();
    let lhs_evals: Vec<Element> = lhs.iter().map(|p| Element::constant(&mut dr, p.eval(&x))).collect();
    let rhs_evals: Vec<Element> = rhs.iter().map(|p| Element::constant(&mut dr, p.eval(&x))).collect();
    let mu_inv_elem = Element::constant(&mut dr, mu_inv);
    let mu_prime_inv_elem = Element::constant(&mut dr, mu_prime_inv);
    let munu_elem = Element::constant(&mut dr, munu);
    let mu_prime_nu_prime_elem = Element::constant(&mut dr, mu_prime_nu_prime);
    let computed_lhs =
        fold_two_layer::<TestParams<N, M>>(&mut dr, &lhs_evals, &mu_inv_elem, &mu_prime_inv_elem).unwrap();
    let computed_rhs =
        fold_two_layer::<TestParams<N, M>>(&mut dr, &rhs_evals, &munu_elem, &mu_prime_nu_prime_elem).unwrap();
    assert_eq!(
        expected_lhs,
        computed_lhs.value(),
        "fold_two_layer(lhs_evals) should equal fold_polys(lhs).eval(x)"
    );
    assert_eq!(
        expected_rhs,
        computed_rhs.value(),
        "fold_two_layer(rhs_evals) should equal fold_polys(rhs).eval(x)"
    );
}

#[test]
fn test_fold_two_layer_evaluations() {
    for count in [1, 2, 3, 4] {
        verify_two_layer::<2, 2>(count);
    }
    for count in [1, 3, 5, 7, 9] {
        verify_two_layer::<3, 3>(count);
    }
    for count in [1, 4, 7, 10, 12] {
        verify_two_layer::<4, 3>(count);
    }
    for count in [1, 4, 7, 10, 12] {
        verify_two_layer::<3, 4>(count);
    }
    for count in [1, 10, 33, 50, 80, 100, 108] {
        verify_two_layer::<6, 18>(count);
    }
}

fn muls(m: usize, n: usize) -> usize {
    n * m * m + n * n - n + 3
}

fn allocs(m: usize, n: usize) -> usize {
    n * m * m + n * n - n + 4
}

fn verify_cost<const M: usize, const N: usize>() {
    let mut dr = Simulator::new();
    let mut allocator = Standard::<bool>::new();
    let mut alloc = |dr: &mut Simulator| Element::allocate(dr, &mut allocator, random_fp()).unwrap();
    let mu = alloc(&mut dr);
    let nu = alloc(&mut dr);
    let mu_prime = alloc(&mut dr);
    let nu_prime = alloc(&mut dr);

    let layer1 = ClaimFolder::new(&mut dr, &mu, &nu).unwrap();
    let errors: Vec<Vec<Element>> = (0..N).map(|_| (0..M * M - M).map(|_| alloc(&mut dr)).collect()).collect();
    let kys: Vec<Vec<Element>> = (0..N).map(|_| (0..M).map(|_| alloc(&mut dr)).collect()).collect();
    let mut collapsed = Vec::new();
    for i in 0..N {
        let e = FixedVec::<Element, NumErrorTerms<ConstLen<M>>>::new(errors[i].clone()).unwrap();
        let k = FixedVec::<Element, ConstLen<M>>::new(kys[i].clone()).unwrap();
        collapsed.push(layer1.fold_inner::<TestParams<N, M>>(&mut dr, &e, &k).unwrap());
    }

    let layer2 = ClaimFolder::new(&mut dr, &mu_prime, &nu_prime).unwrap();
    let error_terms: Vec<Element> = (0..N * N - N).map(|_| alloc(&mut dr)).collect();
    let error_terms = FixedVec::<Element, NumErrorTerms<ConstLen<N>>>::new(error_terms).unwrap();
    let collapsed = FixedVec::<Element, ConstLen<N>>::new(collapsed).unwrap();
    layer2.fold_outer::<TestParams<N, M>>(&mut dr, &error_terms, &collapsed).unwrap();

    assert_eq!(dr.num_gates(), muls(M, N) + allocs(M, N) / 2);
}

#[test]
fn test_cost_formulas() {
    verify_cost::<6, 17>();
    verify_cost::<7, 14>();
    let total_gates = muls(6, 17) + allocs(6, 17) / 2;
    assert!(total_gates < (1 << 11), "M = 6, N = 17 exceeds budget: {total_gates}",);
}

#[test]
fn test_empty_input() {
    type P = TestParams<3, 3>;
    let empty: Vec<Polynomial> = vec![];
    let x = random_fp();
    let folded = fold_inner::<P>(&empty, &Fp::from_u64(1));
    for g in 0..3 {
        assert!(folded.get(g).coeffs.iter().all(|c| *c == Fp::from_u64(0)), "Group {} should be zero polynomial for empty input", g);
        assert_eq!(folded.get(g).eval(&x), Fp::from_u64(0));
    }
    let inner_error = inner_error_terms::<P>(&empty, &empty);
    for g in 0..3 {
        for e in inner_error.get(g).as_slice() {
            assert_eq!(*e, Fp::from_u64(0), "Error terms should be zero for empty input");
        }
    }
}

#[test]
fn test_error_term_ordering() {
    let a = random_polys(3);
    let b = random_polys(3);
    let errors = outer_error_terms::<TestParams<3, 3>>(&a, &b);
    let expected_pairs = [(0, 1), (0, 2), (1, 0), (1, 2), (2, 0), (2, 1)];
    for (idx, &(i, j)) in expected_pairs.iter().enumerate() {
        assert_eq!(
            *errors.get(idx),
            revdot(&a[i], &b[j]),
            "Error term {} should be revdot(a[{}], b[{}])",
            idx,
            i,
            j
        );
    }
    assert_eq!(off_diagonal_pairs(3), expected_pairs.to_vec());
}

fn measure_inner<const M: usize>() -> usize {
    let mut dr = Simulator::new();
    let mu = Element::constant(&mut dr, random_fp());
    let nu = Element::constant(&mut dr, random_fp());
    let error_terms = constants::<NumErrorTerms<ConstLen<M>>>(&mut dr, &random_vec(M * M - M));
    let ky_values = constants::<ConstLen<M>>(&mut dr, &random_vec(M));
    let folder = ClaimFolder::new(&mut dr, &mu, &nu).unwrap();
    folder.fold_inner::<TestParams<1, M>>(&mut dr, &error_terms, &ky_values).unwrap();
    dr.num_gates()
}

#[test]
fn test_fold_inner_constraints() {
    assert_eq!(measure_inner::<3>(), 9 + 1);
    assert_eq!(measure_inner::<5>(), 25 + 1);
    assert_eq!(measure_inner::<6>(), 36 + 1);
}

#[test]
fn test_native_parameters_correctness() {
    type P = TestParams<18, 6>;
    let m = 6;
    let count: usize = 20;
    let lhs = random_polys(count);
    let rhs = random_polys(count);
    let mu = random_fp();
    let nu = random_fp();
    let mu_inv = mu.invert().unwrap();
    let munu = mu.mul(&nu);
    let folded_lhs = fold_inner::<P>(&lhs, &mu_inv);
    let folded_rhs = fold_inner::<P>(&rhs, &munu);

    let mut dr = Simulator::new();
    let mu_elem = Element::constant(&mut dr, mu);
    let nu_elem = Element::constant(&mut dr, nu);
    let folder = ClaimFolder::new(&mut dr, &mu_elem, &nu_elem).unwrap();
    let ky_values: Vec<Fp> = lhs.iter().zip(&rhs).map(|(l, r)| revdot(l, r)).collect();
    let inner_error = inner_error_terms::<P>(&lhs, &rhs);
    let num_groups = count.div_ceil(m);
    for g in 0..num_groups {
        let expected = revdot(folded_lhs.get(g), folded_rhs.get(g));
        let ky_start = g * m;
        let ky_end = (ky_start + m).min(count);
        let ky_group: Vec<Fp> = (0..m)
            .map(|i| if ky_start + i < ky_end { ky_values[ky_start + i] } else { Fp::from_u64(0) })
            .collect();
        let ky_group = constants::<ConstLen<6>>(&mut dr, &ky_group);
        let error_group = constants::<NumErrorTerms<ConstLen<6>>>(&mut dr, inner_error.get(g).as_slice());
        let computed = folder.fold_inner::<P>(&mut dr, &error_group, &ky_group).unwrap();
        assert_eq!(expected, computed.value(), "RevdotParameters: group {} invariant failed", g);
    }
}

#[test]
fn fold_two_layer_pads_past_capacity() {
    // Five sources in groups of two: three groups, more than the two the
    // parameters name, all of which are folded.
    let mut dr = Simulator::new();
    let elems: Vec<Element> = [1u64, 2, 3, 4, 5].iter().map(|v| Element::constant(&mut dr, Fp::from_u64(*v))).collect();
    let ten = Element::constant(&mut dr, Fp::from_u64(10));
    let hundred = Element::constant(&mut dr, Fp::from_u64(100));
    let r = fold_two_layer::<TestParams<2, 2>>(&mut dr, &elems, &ten, &hundred).unwrap();
    // Groups fold to 12, 34 and 50; then 12 * 100^2 + 34 * 100 + 50.
    assert_eq!(r.value(), Fp::from_u64(123450));
    assert_eq!(dr.num_gates(), 3 + 2);
}
