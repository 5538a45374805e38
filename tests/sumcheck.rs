use whir::field::FieldElement;
use whir::poly::{eval_eq, CoefficientList, EvaluationsList, MultilinearPoint};
use whir::statement::{Statement, Weights};
use whir::sumcheck::SumcheckSingle;

fn fe(x: u64) -> FieldElement {
    FieldElement::from_u64(x)
}

#[test]
fn test_sumcheck_single_initialization() {
    // Polynomial with 2 variables: f(X1, X2) = 1 + 2*X1 + 3*X2 + 4*X1*X2
    let c1 = fe(1);
    let c2 = fe(2);
    let c3 = fe(3);
    let c4 = fe(4);

    let coeffs = CoefficientList::new(vec![c1, c2, c3, c4]);
    let statement = Statement::new(2);

    let prover = SumcheckSingle::new(coeffs, &statement, FieldElement::one());

    // Expected evaluation table after wavelet transform
    let expected_evaluation_of_p = vec![c1, c1.add(c2), c1.add(c3), c1.add(c2).add(c3).add(c4)];

    assert_eq!(prover.evaluation_of_p.evals(), &expected_evaluation_of_p[..]);
    assert_eq!(prover.weights.evals(), &vec![FieldElement::zero(); 4][..]);
    assert_eq!(prover.sum, FieldElement::zero());
    assert_eq!(prover.num_variables(), 2);
}

#[test]
fn test_sumcheck_single_one_variable() {
    // Polynomial with 1 variable: f(X1) = 1 + 3*X1
    let c1 = fe(1);
    let c2 = fe(3);

    let coeffs = CoefficientList::new(vec![c1, c2]);
    let statement = Statement::new(1);
    let prover = SumcheckSingle::new(coeffs, &statement, FieldElement::one());

    let expected_evaluation_of_p = vec![c1, c1.add(c2)];

    assert_eq!(prover.evaluation_of_p.evals(), &expected_evaluation_of_p[..]);
    assert_eq!(prover.weights.evals(), &vec![FieldElement::zero(); 2][..]);
    assert_eq!(prover.sum, FieldElement::zero());
    assert_eq!(prover.num_variables(), 1);
}

#[test]
fn test_sumcheck_single_three_variables() {
    let c1 = fe(1);
    let c2 = fe(2);
    let c3 = fe(3);
    let c4 = fe(4);
    let c5 = fe(5);
    let c6 = fe(6);
    let c7 = fe(7);
    let c8 = fe(8);

    let coeffs = CoefficientList::new(vec![c1, c2, c3, c4, c5, c6, c7, c8]);
    let statement = Statement::new(3);
    let prover = SumcheckSingle::new(coeffs, &statement, FieldElement::one());

    let expected_evaluation_of_p = vec![
        c1,
        c1.add(c2),
        c1.add(c3),
        c1.add(c2).add(c3).add(c4),
        c1.add(c5),
        c1.add(c2).add(c5).add(c6),
        c1.add(c3).add(c5).add(c7),
        c1.add(c2).add(c3).add(c4).add(c5).add(c6).add(c7).add(c8),
    ];

    assert_eq!(prover.evaluation_of_p.evals(), &expected_evaluation_of_p[..]);
    assert_eq!(prover.weights.evals(), &vec![FieldElement::zero(); 8][..]);
    assert_eq!(prover.sum, FieldElement::zero());
    assert_eq!(prover.num_variables(), 3);
}

#[test]
fn test_sumcheck_single_with_equality_constraints() {
    let c1 = fe(1);
    let c2 = fe(2);
    let c3 = fe(3);
    let c4 = fe(4);

    let coeffs = CoefficientList::new(vec![c1, c2, c3, c4]);

    // Equality constraint at (X1, X2) = (1,0)
    let mut statement = Statement::new(2);
    let point = MultilinearPoint(vec![FieldElement::one(), FieldElement::zero()]);
    let weights = Weights::evaluation(point);
    let eval = fe(5);
    statement.add_constraint(weights, eval);

    let prover = SumcheckSingle::new(coeffs, &statement, FieldElement::one());

    // Expected sum update: sum = 5
    assert_eq!(prover.sum, eval);

    let expected_evaluation_of_p = vec![c1, c1.add(c2), c1.add(c3), c1.add(c2).add(c3).add(c4)];
    assert_eq!(prover.evaluation_of_p.evals(), &expected_evaluation_of_p[..]);
    assert_eq!(prover.num_variables(), 2);
}

#[test]
fn test_sumcheck_single_multiple_constraints() {
    let c: Vec<FieldElement> = (1..=8).map(fe).collect();
    let coeffs = CoefficientList::new(c);

    let mut statement = Statement::new(3);
    let one = FieldElement::one();
    let zero = FieldElement::zero();
    let point1 = MultilinearPoint(vec![one, zero, one]);
    let point2 = MultilinearPoint(vec![zero, one, zero]);

    let eval1 = fe(5);
    let eval2 = fe(4);

    statement.add_constraint(Weights::evaluation(point1), eval1);
    statement.add_constraint(Weights::evaluation(point2), eval2);

    let prover = SumcheckSingle::new(coeffs, &statement, FieldElement::one());

    // Expected sum update: sum = (5) + (4)
    let expected_sum = eval1.add(eval2);
    assert_eq!(prover.sum, expected_sum);
}

#[test]
fn test_compute_sumcheck_polynomial_basic() {
    let coeffs = CoefficientList::new(vec![fe(1), fe(2), fe(3), fe(4)]);
    let statement = Statement::new(2);

    let prover = SumcheckSingle::new(coeffs, &statement, FieldElement::one());
    let sumcheck_poly = prover.compute_sumcheck_polynomial();

    // Without constraints the round polynomial is zero
    let expected_evaluations = vec![FieldElement::zero(); 3];
    assert_eq!(sumcheck_poly.evaluations(), &expected_evaluations[..]);
}

#[test]
fn test_compute_sumcheck_polynomial_with_equality_constraints() {
    let c1 = fe(1);
    let c2 = fe(2);
    let c3 = fe(3);
    let c4 = fe(4);

    let coeffs = CoefficientList::new(vec![c1, c2, c3, c4]);

    let mut statement = Statement::new(2);
    let point = MultilinearPoint(vec![FieldElement::one(), FieldElement::zero()]);
    let weights = Weights::evaluation(point);
    let eval = fe(5);
    statement.add_constraint(weights, eval);

    let prover = SumcheckSingle::new(coeffs, &statement, FieldElement::one());
    let sumcheck_poly = prover.compute_sumcheck_polynomial();

    assert_eq!(prover.sum, eval);

    let ep_00 = c1;
    let ep_01 = c1.add(c2);
    let ep_10 = c1.add(c3);
    let ep_11 = c1.add(c3).add(c2).add(c4);

    let f_00 = FieldElement::zero();
    let f_01 = FieldElement::zero();
    let f_10 = FieldElement::one();
    let f_11 = FieldElement::zero();

    let e0 = ep_00.mul(f_00).add(ep_10.mul(f_10));
    let e2 = ep_01
        .sub(ep_00)
        .mul(f_01.sub(f_00))
        .add(ep_11.sub(ep_10).mul(f_11.sub(f_10)));
    let e1 = prover.sum.sub(e0.double()).sub(e2);

    let eval_0 = e0;
    let eval_1 = e0.add(e1).add(e2);
    let eval_2 = eval_1.add(e1).add(e2).add(e2.double());
    let expected_evaluations = vec![eval_0, eval_1, eval_2];

    assert_eq!(sumcheck_poly.evaluations(), &expected_evaluations[..]);
}

#[test]
fn test_compute_sumcheck_polynomial_with_equality_constraints_3vars() {
    let c: Vec<FieldElement> = (1..=8).map(fe).collect();
    let (c1, c2, c3, c4, c5, c6, c7, c8) = (c[0], c[1], c[2], c[3], c[4], c[5], c[6], c[7]);
    let coeffs = CoefficientList::new(c.clone());

    let mut statement = Statement::new(3);
    let one = FieldElement::one();
    let zero = FieldElement::zero();
    let point = MultilinearPoint(vec![one, zero, one]);
    let eval = fe(5);
    statement.add_constraint(Weights::evaluation(point), eval);

    let prover = SumcheckSingle::new(coeffs, &statement, FieldElement::one());
    let sumcheck_poly = prover.compute_sumcheck_polynomial();

    assert_eq!(prover.sum, eval);

    let ep_000 = c1;
    let ep_001 = c1.add(c2);
    let ep_010 = c1.add(c3);
    let ep_011 = c1.add(c2).add(c3).add(c4);
    let ep_100 = c1.add(c5);
    let ep_101 = c1.add(c2).add(c5).add(c6);
    let ep_110 = c1.add(c3).add(c5).add(c7);
    let ep_111 = c1.add(c2).add(c3).add(c4).add(c5).add(c6).add(c7).add(c8);

    let f_000 = zero;
    let f_001 = zero;
    let f_010 = zero;
    let f_011 = zero;
    let f_100 = zero;
    let f_101 = one;
    let f_110 = zero;
    let f_111 = zero;

    let e0 = ep_000
        .mul(f_000)
        .add(ep_010.mul(f_010))
        .add(ep_100.mul(f_100))
        .add(ep_110.mul(f_110));
    let e2 = ep_001
        .sub(ep_000)
        .mul(f_001.sub(f_000))
        .add(ep_011.sub(ep_010).mul(f_011.sub(f_010)))
        .add(ep_101.sub(ep_100).mul(f_101.sub(f_100)))
        .add(ep_111.sub(ep_110).mul(f_111.sub(f_110)));
    let e1 = prover.sum.sub(e0.double()).sub(e2);

    let eval_0 = e0;
    let eval_1 = e0.add(e1).add(e2);
    let eval_2 = eval_1.add(e1).add(e2).add(e2.double());
    let expected_evaluations = vec![eval_0, eval_1, eval_2];

    assert_eq!(sumcheck_poly.evaluations(), &expected_evaluations[..]);
}

#[test]
fn single_constraint_round_identities() {
    // f(0,0)=1, f(0,1)=3, f(1,0)=4, f(1,1)=10; constraint at (1,0) with value 5.
    let coeffs = CoefficientList::new(vec![fe(1), fe(2), fe(3), fe(4)]);
    let mut statement = Statement::new(2);
    let point = MultilinearPoint(vec![FieldElement::one(), FieldElement::zero()]);
    statement.add_constraint(Weights::evaluation(point), fe(5));
    let prover = SumcheckSingle::new(coeffs, &statement, FieldElement::one());
    assert_eq!(prover.sum, fe(5));
    assert_eq!(
        prover.weights.evals(),
        &[FieldElement::zero(), FieldElement::zero(), FieldElement::one(), FieldElement::zero()][..]
    );
    let s = prover.compute_sumcheck_polynomial();
    let e = s.evaluations();
    // S(0) = p(1,0)*1 = 4; c2 = (p(1,1)-p(1,0))*(0-1) = -6.
    assert_eq!(e[0], fe(4));
    assert_eq!(e[0].add(e[1]), fe(5));
    let c2 = FieldElement::zero().sub(fe(6));
    assert_eq!(e[2].sub(e[1].double()).add(e[0]), c2.double());
    assert_eq!(s.n_variables, 1);
}

#[test]
fn combination_randomness_weighs_constraints_by_powers() {
    let coeffs = CoefficientList::new(vec![fe(1), fe(2)]);
    let mut statement = Statement::new(1);
    statement.add_constraint(Weights::evaluation(MultilinearPoint(vec![fe(0)])), fe(7));
    statement.add_constraint(Weights::evaluation(MultilinearPoint(vec![fe(1)])), fe(11));
    let prover = SumcheckSingle::new(coeffs, &statement, fe(3));
    // 7 * 1 + 11 * 3
    assert_eq!(prover.sum, fe(40));
    // eq_0 = (1, 0), eq_1 = (0, 1) scaled by 3
    assert_eq!(prover.weights.evals(), &[fe(1), fe(3)][..]);
}

#[test]
fn linear_weights_are_scaled_and_added() {
    let coeffs = CoefficientList::new(vec![fe(1), fe(2)]);
    let mut statement = Statement::new(1);
    let w = EvaluationsList::from_coefficients(CoefficientList::new(vec![fe(5), fe(1)]));
    assert_eq!(w.evals(), &[fe(5), fe(6)][..]);
    statement.add_constraint(Weights::linear(w), fe(9));
    let (table, sum) = statement.combine(fe(2));
    assert_eq!(table.evals(), &[fe(5), fe(6)][..]);
    assert_eq!(sum, fe(9));
    let prover = SumcheckSingle::new(coeffs, &statement, fe(2));
    assert_eq!(prover.sum, fe(9));
}

#[test]
fn add_new_equality_updates_weights_and_sum() {
    let coeffs = CoefficientList::new(vec![fe(1), fe(2), fe(3), fe(4)]);
    let statement = Statement::new(2);
    let mut prover = SumcheckSingle::new(coeffs, &statement, FieldElement::one());
    let points = vec![
        MultilinearPoint(vec![fe(0), fe(1)]),
        MultilinearPoint(vec![fe(2), fe(3)]),
    ];
    prover.add_new_equality(&points, &[fe(2), fe(5)], &[fe(7), fe(11)]);
    assert_eq!(prover.sum, fe(2 * 7 + 5 * 11));
    // eq_(0,1) = (0,1,0,0); eq_(2,3) = ((1-2)(1-3), (1-2)3, 2(1-3), 2*3) = (2, -3, -4, 6)
    let minus = |x: u64| FieldElement::zero().sub(fe(x));
    let expected = vec![fe(10), fe(2).add(minus(15)), minus(20), fe(30)];
    assert_eq!(prover.weights.evals(), &expected[..]);
    assert_eq!(prover.num_variables(), 2);
}

#[test]
fn eval_eq_of_empty_point_adds_scalar() {
    let mut out = vec![fe(4)];
    eval_eq(&vec![], &mut out, fe(3));
    assert_eq!(out, vec![fe(7)]);
}

#[test]
fn one_variable_round_polynomial() {
    // p = (1, 4), weights = eq_(5) = (1-5, 5) = (-4, 5)
    let coeffs = CoefficientList::new(vec![fe(1), fe(3)]);
    let mut statement = Statement::new(1);
    // p(5) = 1 + 3*5 = 16
    statement.add_constraint(Weights::evaluation(MultilinearPoint(vec![fe(5)])), fe(16));
    let prover = SumcheckSingle::new(coeffs, &statement, FieldElement::one());
    let e = prover.compute_sumcheck_polynomial().evaluations().to_vec();
    // S(X) = p(X) w(X) with p(X) = 1 + 3X, w(X) = -4 + 9X: S(0) = -4, S(1) = 20, S(2) = 98
    assert_eq!(e, vec![FieldElement::zero().sub(fe(4)), fe(20), fe(98)]);
}
