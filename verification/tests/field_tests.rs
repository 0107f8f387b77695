use bls12_381::Scalar;
use multilinear_sumcheck::field::Fe;

#[test]
fn field_add_matches_scalar_addition() {
    let a = Fe::from_u64(7);
    let b = Fe::from_u64(35);
    assert_eq!(a.add(&b), Fe::from_u64(42));
    assert_eq!(a.add(&b).to_bytes(), (Scalar::from(7u64) + Scalar::from(35u64)).to_bytes());
}

#[test]
fn field_mul_matches_scalar_multiplication() {
    let a = Fe::from_u64(6);
    let b = Fe::from_u64(7);
    assert_eq!(a.mul(&b), Fe::from_u64(42));
    assert_eq!(a.mul(&b).to_bytes(), (Scalar::from(6u64) * Scalar::from(7u64)).to_bytes());
}

#[test]
fn field_neg_is_additive_inverse() {
    let a = Fe::from_u64(5);
    let n = a.neg();
    assert_ne!(n, a);
    assert_eq!(n.add(&a), Fe::zero());
    assert_eq!(n.to_bytes(), (-Scalar::from(5u64)).to_bytes());
    assert_eq!(Fe::zero().neg(), Fe::zero());
}

#[test]
fn field_identities() {
    assert!(Fe::zero().is_zero());
    assert!(!Fe::one().is_zero());
    assert!(Fe::one().equals(&Fe::from_u64(1)));
    assert!(!Fe::one().equals(&Fe::from_u64(2)));
    assert_eq!(Fe::one().to_bytes(), Scalar::one().to_bytes());
    assert_eq!(Fe::zero().to_bytes(), [0u8; 32]);
}

#[test]
fn field_wraps_at_the_modulus() {
    // q - 1 plus 2 is 1.
    let minus_one = Fe::one().neg();
    assert_eq!(minus_one.add(&Fe::from_u64(2)), Fe::one());
    // (q - 1) squared is 1.
    assert_eq!(minus_one.mul(&minus_one), Fe::one());
}

#[test]
fn field_random_is_canonical() {
    let r = Fe::random();
    let bytes = r.to_bytes();
    assert!(bool::from(Scalar::from_bytes(&bytes).is_some()));
}

#[test]
fn field_from_bytes_takes_canonical_encodings_only() {
    let five = Scalar::from(5u64).to_bytes();
    assert_eq!(Fe::from_bytes(&five), Some(Fe::from_u64(5)));
    let minus_one = (-Scalar::one()).to_bytes();
    assert_eq!(Fe::from_bytes(&minus_one), Some(Fe::one().neg()));
    // q itself, little-endian, is not canonical
    let q: [u8; 32] = [
        0x01, 0x00, 0x00, 0x00, 0xff, 0xff, 0xff, 0xff, 0xfe, 0x5b, 0xfe, 0xff, 0x02, 0xa4, 0xbd,
        0x53, 0x05, 0xd8, 0xa1, 0x09, 0x08, 0xd8, 0x39, 0x33, 0x48, 0x7d, 0x9d, 0x29, 0x53, 0xa7,
        0xed, 0x73,
    ];
    assert_eq!(Fe::from_bytes(&q), None);
    assert_eq!(Fe::from_bytes(&[0xff; 32]), None);
    assert_eq!(Fe::from_bytes(&[0u8; 32]), Some(Fe::zero()));
}

#[test]
fn field_from_u64_is_little_endian() {
    let mut expected = [0u8; 32];
    expected[0] = 0x02;
    expected[1] = 0x01;
    assert_eq!(Fe::from_u64(258).to_bytes(), expected);
    assert_eq!(Fe::from_u64(u64::MAX).to_bytes()[..8], [0xff; 8]);
    assert_eq!(Fe::from_u64(u64::MAX).to_bytes()[8..], [0u8; 24]);
}
