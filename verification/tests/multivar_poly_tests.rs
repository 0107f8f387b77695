use multilinear_sumcheck::field::Fe;
use multilinear_sumcheck::multivar_poly::MPolynomial;
use multilinear_sumcheck::univar_poly::Polynomial;
use multilinear_sumcheck::utils::convert_to_binary;

// g(x1, x2, x3) = 5 + 2*x3 + 3*x2 + x1 * x2 * x3
fn sample_poly() -> MPolynomial {
    MPolynomial {
        var_num: 3,
        coeffs: vec![
            Fe::from_u64(5),
            Fe::from_u64(2),
            Fe::from_u64(3),
            Fe::zero(),
            Fe::zero(),
            Fe::zero(),
            Fe::zero(),
            Fe::one(),
        ],
    }
}

#[test]
fn test_partial_evaluate() {
    // let g(x1, x2, x3) = 5 + 2*x3 + 3*x2 +  x1 * x2 * x3
    // term0: exp: (0,0,0) = 5
    // term1: exp: (0,0,1) = 2*x3
    // term2: exp: (0,1,0) = 3*x2
    // term3-6: exp: (0,1,0) = 0.
    // term7: exp: (1,1,1) = x1 * x2 * x3

    let var_num = 3;

    let mpoly = MPolynomial {
        var_num,
        coeffs: vec![
            Fe::from_u64(5),
            Fe::from_u64(2),
            Fe::from_u64(3),
            Fe::zero(),
            Fe::zero(),
            Fe::zero(),
            Fe::zero(),
            Fe::one(),
        ],
    };

    // domain: (0,1,1)
    let challenge_domain = vec![10];

    let actual = mpoly.partial_evaluate(&challenge_domain);

    // expect t(x) = 12 + 16x
    let target = Polynomial {
        coeffs: vec![Fe::from_u64(12), Fe::from_u64(16)],
    };
    assert_eq!(actual, target);

    let actual_evaluation = actual.evaluate(Fe::from_u64(10));

    let target_evaluation = Fe::from_u64(172);
    assert_eq!(target_evaluation, actual_evaluation)
}

#[test]
fn multivar_poly_test_evaluate() {
    // let g(x1, x2, x3) = 5 + 2*x3 + 3*x2 +  x1 * x2 * x3
    let var_num = 3;

    let poly = MPolynomial {
        var_num,
        coeffs: vec![
            Fe::from_u64(5),
            Fe::from_u64(2),
            Fe::from_u64(3),
            Fe::zero(),
            Fe::zero(),
            Fe::zero(),
            Fe::zero(),
            Fe::one(),
        ],
    };

    // domain: (0,1,1)
    let domain = convert_to_binary(&var_num, 3);
    let target = Fe::from_u64(10);

    let actual = poly.evaluate(&domain);
    assert_eq!(target, actual);
}

#[test]
#[allow(non_snake_case)]
fn MPolynomial_test_evaluate() {
    // let g(x1, x2, x3) = 5 + 2*x3 + 3*x2 +  x1 * x2 * x3
    let var_num = 3;

    let poly = MPolynomial {
        var_num,
        coeffs: vec![
            Fe::from_u64(5),
            Fe::from_u64(2),
            Fe::from_u64(3),
            Fe::zero(),
            Fe::zero(),
            Fe::zero(),
            Fe::zero(),
            Fe::one(),
        ],
    };

    // domain: (0,1,1)
    let domain = convert_to_binary(&var_num, 3);
    let target = Fe::from_u64(10);

    let actual = poly.evaluate(&domain);
    assert_eq!(target, actual);
}

#[test]
fn evaluate_off_the_hypercube() {
    // g(2, 3, 4) = 5 + 8 + 9 + 24 = 46
    assert_eq!(sample_poly().evaluate(&vec![2, 3, 4]), Fe::from_u64(46));
    // a zero coordinate kills the cubic term only
    assert_eq!(sample_poly().evaluate(&vec![0, 3, 4]), Fe::from_u64(22));
}

#[test]
fn evaluate_constant_polynomial_without_variables() {
    let poly = MPolynomial { var_num: 0, coeffs: vec![Fe::from_u64(9)] };
    assert_eq!(poly.evaluate(&vec![]), Fe::from_u64(9));
    assert_eq!(poly.sum_all_evals(), Fe::from_u64(9));
}

#[test]
fn sum_all_evals_adds_the_eight_corner_values() {
    // 8*5 + 4*2 + 4*3 + 1 = 61
    assert_eq!(sample_poly().sum_all_evals(), Fe::from_u64(61));
}

#[test]
fn partial_evaluate_first_round_splits_the_total() {
    // g1(X) = sum over x2, x3 of g(X, x2, x3) = 30 + X
    let g1 = sample_poly().partial_evaluate(&vec![]);
    assert_eq!(g1, Polynomial { coeffs: vec![Fe::from_u64(30), Fe::from_u64(1)] });
    let total = g1.evaluate(Fe::zero()).add(&g1.evaluate(Fe::one()));
    assert_eq!(total, sample_poly().sum_all_evals());
}

#[test]
fn partial_evaluate_last_round_is_the_polynomial_in_the_last_variable() {
    // g(10, 7, X) = 5 + 21 + (2 + 70) X
    let g3 = sample_poly().partial_evaluate(&vec![10, 7]);
    assert_eq!(g3, Polynomial { coeffs: vec![Fe::from_u64(26), Fe::from_u64(72)] });
    assert_eq!(g3.evaluate(Fe::from_u64(3)), sample_poly().evaluate(&vec![10, 7, 3]));
}

#[test]
fn partial_evaluate_rounds_chain() {
    // g2(0) + g2(1) = g1(r1) for r1 = 10
    let poly = sample_poly();
    let g1 = poly.partial_evaluate(&vec![]);
    let g2 = poly.partial_evaluate(&vec![10]);
    let lhs = g2.evaluate(Fe::zero()).add(&g2.evaluate(Fe::one()));
    assert_eq!(lhs, g1.evaluate(Fe::from_u64(10)));
}

#[test]
fn partial_evaluate_of_zero_polynomial_has_two_zero_coefficients() {
    let poly = MPolynomial { var_num: 2, coeffs: vec![Fe::zero(); 4] };
    let g = poly.partial_evaluate(&vec![3]);
    assert_eq!(g, Polynomial { coeffs: vec![Fe::zero(), Fe::zero()] });
    assert_eq!(g.degree(), 0);
}

#[test]
fn partial_evaluate_keeps_the_slot_of_an_absent_linear_term() {
    // f(x1) = 5 has no term in x1: the message is 5 + 0 X.
    let poly = MPolynomial { var_num: 1, coeffs: vec![Fe::from_u64(5), Fe::zero()] };
    let g = poly.partial_evaluate(&vec![]);
    assert_eq!(g, Polynomial { coeffs: vec![Fe::from_u64(5), Fe::zero()] });
    assert_eq!(g.degree(), 0);
}

#[test]
fn partial_evaluate_with_negative_slope() {
    // f(x1) = 1 - x1
    let poly = MPolynomial { var_num: 1, coeffs: vec![Fe::one(), Fe::one().neg()] };
    let g = poly.partial_evaluate(&vec![]);
    assert_eq!(g, Polynomial { coeffs: vec![Fe::one(), Fe::one().neg()] });
    assert_eq!(g.evaluate(Fe::one()), Fe::zero());
}

#[test]
fn has_full_table_compares_the_length_with_the_hypercube() {
    assert!(sample_poly().has_full_table());
    assert!(!MPolynomial { var_num: 2, coeffs: vec![Fe::zero(); 3] }.has_full_table());
    assert!(!MPolynomial { var_num: 3, coeffs: vec![Fe::zero(); 4] }.has_full_table());
    assert!(MPolynomial { var_num: 0, coeffs: vec![Fe::one()] }.has_full_table());
    assert!(!MPolynomial { var_num: 0, coeffs: vec![] }.has_full_table());
    assert!(!MPolynomial { var_num: usize::MAX, coeffs: vec![Fe::one()] }.has_full_table());
}
