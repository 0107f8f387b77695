use multilinear_sumcheck::field::Fe;
use multilinear_sumcheck::multivar_poly::MPolynomial;
use multilinear_sumcheck::prover::Prover;
use multilinear_sumcheck::univar_poly::Polynomial;

fn mle(var_num: usize, coeffs: &[u64]) -> MPolynomial {
    MPolynomial { var_num, coeffs: coeffs.iter().map(|c| Fe::from_u64(*c)).collect() }
}

fn poly(coeffs: &[u64]) -> Polynomial {
    Polynomial { coeffs: coeffs.iter().map(|c| Fe::from_u64(*c)).collect() }
}

// One output variable z, one variable per input gate:
// add(z, a, b) = z, mult(z, a, b) = a * b, W(x) = 3 + 2x, z bound to 2.
fn one_variable_layer() -> Prover {
    let add = mle(3, &[0, 0, 0, 0, 1, 0, 0, 0]);
    let mult = mle(3, &[0, 0, 0, 1, 0, 0, 0, 0]);
    let w = mle(1, &[3, 2]);
    Prover::new((1, 1), (add, mult, w), vec![2])
}

// No bound variable; the selectors run over two variables, as W does:
// add = x2, mult = x1 * x2, W = 1 + 2 x2 + 3 x1 + 4 x1 x2.
fn two_variable_layer() -> Prover {
    let add = mle(2, &[0, 1, 0, 0]);
    let mult = mle(2, &[0, 0, 0, 1]);
    let w = mle(2, &[1, 2, 3, 4]);
    Prover::new((0, 2), (add, mult, w), vec![])
}

#[test]
fn new_stores_its_arguments() {
    let p = one_variable_layer();
    assert_eq!(p.v_l, 1);
    assert_eq!(p.v_r, 1);
    assert_eq!(p.r_i, vec![2]);
    assert_eq!(p.w_i_plus_1, mle(1, &[3, 2]));
    assert_eq!(p.add.var_num, 3);
    assert_eq!(p.mult.var_num, 3);
}

#[test]
fn claimed_sum_iterates_over_both_input_gates() {
    // sum over a, b of 2 * (W(a) + W(b)) + a * b * W(a) * W(b)
    //   = 2 * 32 + W(1) * W(1) = 64 + 25
    assert_eq!(one_variable_layer().claimed_sum(), Fe::from_u64(89));
}

#[test]
fn round_1_combines_the_partial_evaluations() {
    // pa = 4, pm = X, pw = 3 + 2X, wb = 8:
    // pa * pw + pa * wb + pm * pw * wb = 44 + 32 X + 16 X^2
    let g = one_variable_layer().round_1();
    assert_eq!(g, poly(&[44, 32, 16]));
    assert_eq!(g.degree(), 2);
}

#[test]
fn round_v_is_the_last_round() {
    // v_r = 1: the last round follows no challenge.
    assert_eq!(one_variable_layer().round_v(&vec![]), poly(&[44, 32, 16]));
    // v_r = 2: the last round follows one challenge.
    assert_eq!(two_variable_layer().round_v(&vec![5]), poly(&[0, 1474, 2002]));
}

#[test]
fn recursive_round_j_binds_the_challenges() {
    // pa = X, pm = 5X, pw = 16 + 22X, wb = 18
    let g = two_variable_layer().recursive_round_j(&vec![5]);
    assert_eq!(g, poly(&[0, 1474, 2002]));
}

#[test]
fn round_messages_keep_three_coefficients() {
    // All selectors zero: the message is the zero polynomial of length 3.
    let p = Prover::new((0, 1), (mle(1, &[0, 0]), mle(1, &[0, 0]), mle(1, &[0, 0])), vec![]);
    let g = p.round_1();
    assert_eq!(g, poly(&[0, 0, 0]));
    assert_eq!(g.degree(), 0);
}

#[test]
fn shape_tests_follow_the_variable_counts() {
    let one = one_variable_layer();
    assert!(one.has_sum_shape());
    assert!(one.has_round_shape(0));
    // W has one variable: no round after a challenge
    assert!(!one.has_round_shape(1));
    let two = two_variable_layer();
    // the selectors would need four variables for the layer sum
    assert!(!two.has_sum_shape());
    assert!(two.has_round_shape(0));
    assert!(two.has_round_shape(1));
    assert!(!two.has_round_shape(2));
    assert!(!two.has_round_shape(usize::MAX));
    // a table that is not full
    let broken = Prover::new((0, 1), (mle(1, &[0, 0, 0]), mle(1, &[0, 0]), mle(1, &[0, 0])), vec![]);
    assert!(!broken.has_round_shape(0));
    assert!(!broken.has_sum_shape());
}
