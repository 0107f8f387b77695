use multilinear_sumcheck::field::Fe;
use multilinear_sumcheck::univar_poly::Polynomial;

fn poly(coeffs: &[u64]) -> Polynomial {
    Polynomial { coeffs: coeffs.iter().map(|c| Fe::from_u64(*c)).collect() }
}

#[test]
fn polynomial_evaluate_is_horner() {
    // 12 + 16 * 10 = 172
    assert_eq!(poly(&[12, 16]).evaluate(Fe::from_u64(10)), Fe::from_u64(172));
    // 1 + 2x + 3x^2 at 5 = 1 + 10 + 75
    assert_eq!(poly(&[1, 2, 3]).evaluate(Fe::from_u64(5)), Fe::from_u64(86));
    assert_eq!(poly(&[1, 2, 3]).evaluate(Fe::zero()), Fe::from_u64(1));
}

#[test]
fn empty_polynomial_is_identically_zero() {
    let empty = poly(&[]);
    assert_eq!(empty.evaluate(Fe::from_u64(7)), Fe::zero());
    assert_eq!(empty.degree(), 0);
    assert_eq!(empty.add(&poly(&[1, 2])), poly(&[1, 2]));
    assert_eq!(empty.mul(&poly(&[1, 2])), poly(&[]));
    assert_eq!(poly(&[1, 2]).mul(&empty), poly(&[]));
}

#[test]
fn polynomial_add_is_as_long_as_the_longer() {
    assert_eq!(poly(&[1, 2, 3]).add(&poly(&[10, 20])), poly(&[11, 22, 3]));
    assert_eq!(poly(&[10, 20]).add(&poly(&[1, 2, 3])), poly(&[11, 22, 3]));
}

#[test]
fn polynomial_add_reduces_modulo_the_field_order() {
    let minus_one = Polynomial { coeffs: vec![Fe::one().neg()] };
    assert_eq!(minus_one.add(&poly(&[1])), poly(&[0]));
}

#[test]
fn polynomial_mul_is_the_full_convolution() {
    // (1 + 2x)(3 + 4x + 5x^2) = 3 + 10x + 13x^2 + 10x^3
    assert_eq!(poly(&[1, 2]).mul(&poly(&[3, 4, 5])), poly(&[3, 10, 13, 10]));
    assert_eq!(poly(&[3, 4, 5]).mul(&poly(&[1, 2])), poly(&[3, 10, 13, 10]));
}

#[test]
fn polynomial_mul_by_a_constant_scales() {
    assert_eq!(poly(&[1, 2, 3]).mul(&poly(&[4])), poly(&[4, 8, 12]));
}

#[test]
fn polynomial_degree_looks_past_high_zeros() {
    assert_eq!(poly(&[1, 2, 3]).degree(), 2);
    assert_eq!(poly(&[1, 2, 0, 0]).degree(), 1);
    assert_eq!(poly(&[7]).degree(), 0);
    assert_eq!(poly(&[0, 0]).degree(), 0);
}

#[test]
fn polynomial_to_bytes_concatenates_the_coefficients() {
    let bytes = poly(&[258, 3]).to_bytes();
    assert_eq!(bytes.len(), 64);
    assert_eq!(bytes[..32], Fe::from_u64(258).to_bytes());
    assert_eq!(bytes[32..], Fe::from_u64(3).to_bytes());
    assert_eq!(bytes[0], 2);
    assert_eq!(bytes[1], 1);
    assert_eq!(bytes[32], 3);
    assert!(poly(&[]).to_bytes().is_empty());
}
