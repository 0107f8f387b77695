use multilinear_sumcheck::field::Fe;
use multilinear_sumcheck::multivar_poly::MPolynomial;
use multilinear_sumcheck::transcript::Transcript;
use multilinear_sumcheck::univar_poly::Polynomial;
use multilinear_sumcheck::verification::{challenge_from_bytes, State, Verifier};

/// A transcript for tests: it folds what it absorbs into a running state and
/// gives the state back in the first bytes of each challenge.
struct ToyTranscript {
    state: u64,
    appended: usize,
    drawn: usize,
}

impl ToyTranscript {
    fn new() -> Self {
        ToyTranscript { state: 0x9e37_79b9_7f4a_7c15, appended: 0, drawn: 0 }
    }
}

impl Transcript for ToyTranscript {
    fn append(&mut self, new_data: &[u8]) {
        self.appended += 1;
        for b in new_data {
            self.state = self.state.rotate_left(5) ^ (*b as u64);
            self.state = self.state.wrapping_mul(0x1000_0000_01b3);
        }
    }

    fn challenge(&mut self) -> [u8; 32] {
        self.drawn += 1;
        self.state = self.state.wrapping_mul(0x5851_f42d_4c95_7f2d).wrapping_add(1);
        let mut out = [0u8; 32];
        out[..8].copy_from_slice(&self.state.to_le_bytes());
        out
    }
}

// g(x1, x2, x3) = 5 + 2*x3 + 3*x2 + x1 * x2 * x3
fn sample_poly() -> MPolynomial {
    MPolynomial {
        var_num: 3,
        coeffs: [5u64, 2, 3, 0, 0, 0, 0, 1].iter().map(|c| Fe::from_u64(*c)).collect(),
    }
}

fn poly(coeffs: &[u64]) -> Polynomial {
    Polynomial { coeffs: coeffs.iter().map(|c| Fe::from_u64(*c)).collect() }
}

fn pseudo_random_poly(var_num: usize, seed: u64) -> MPolynomial {
    let mut state = seed;
    let coeffs = (0..(1usize << var_num))
        .map(|_| {
            state = state.wrapping_mul(6364136223846793005).wrapping_add(1442695040888963407);
            let a = Fe::from_u64(state);
            state = state.wrapping_mul(6364136223846793005).wrapping_add(1442695040888963407);
            a.mul(&Fe::from_u64(state)).add(&Fe::from_u64(state >> 7).neg())
        })
        .collect();
    MPolynomial { var_num, coeffs }
}

#[test]
fn honest_prover_is_accepted() {
    for var_num in 1..=5usize {
        let f = pseudo_random_poly(var_num, 17 + var_num as u64);
        let mut transcript = ToyTranscript::new();
        let mut verifier = Verifier::new(var_num, 1, f.sum_all_evals());
        assert_eq!(verifier.state, State::Init);
        let mut challenges: Vec<usize> = vec![];
        for round in 0..var_num {
            let g = f.partial_evaluate(&challenges);
            assert!(g.degree() <= 1);
            let r = verifier.round(&g, &mut transcript).expect("an honest message passes");
            challenges.push(r);
            assert_eq!(verifier.challenges, challenges);
            if round + 1 < var_num {
                assert_eq!(verifier.state, State::Round(round + 1));
            } else {
                assert_eq!(verifier.state, State::Final);
            }
        }
        // one absorption and one challenge per round
        assert_eq!(transcript.appended, var_num);
        assert_eq!(transcript.drawn, var_num);
        assert!(verifier.finalize(&f.evaluate(&challenges)));
        assert_eq!(verifier.state, State::Accept);
    }
}

#[test]
fn honest_prover_is_accepted_with_fixed_challenges() {
    let f = sample_poly();
    let mut verifier = Verifier::new(3, 1, Fe::from_u64(61));
    let rs = vec![10usize, 7, 3];
    verifier.receive(&f.partial_evaluate(&vec![]), rs[0]);
    assert_eq!(verifier.state, State::Round(1));
    // g1 = 30 + X at 10
    assert_eq!(verifier.claim, Fe::from_u64(40));
    verifier.receive(&f.partial_evaluate(&vec![10]), rs[1]);
    assert_eq!(verifier.state, State::Round(2));
    // g2 = 12 + 16 X at 7
    assert_eq!(verifier.claim, Fe::from_u64(124));
    verifier.receive(&f.partial_evaluate(&vec![10, 7]), rs[2]);
    assert_eq!(verifier.state, State::Final);
    // g3 = 26 + 72 X at 3
    assert_eq!(verifier.claim, Fe::from_u64(242));
    assert_eq!(f.evaluate(&rs), Fe::from_u64(242));
    assert!(verifier.finalize(&f.evaluate(&rs)));
    assert_eq!(verifier.state, State::Accept);
    assert_eq!(verifier.challenges, rs);
}

#[test]
fn corrupted_first_message_is_rejected() {
    let f = sample_poly();
    let mut transcript = ToyTranscript::new();
    let mut verifier = Verifier::new(3, 1, f.sum_all_evals());
    let mut g = f.partial_evaluate(&vec![]);
    g.coeffs[1] = g.coeffs[1].add(&Fe::one());
    assert_eq!(verifier.round(&g, &mut transcript), None);
    assert_eq!(verifier.state, State::Reject);
    // a rejected message is not absorbed and draws no challenge
    assert_eq!(transcript.appended, 0);
    assert_eq!(transcript.drawn, 0);
    assert!(verifier.challenges.is_empty());
}

#[test]
fn corrupted_middle_message_is_rejected() {
    let f = sample_poly();
    let mut verifier = Verifier::new(3, 1, f.sum_all_evals());
    verifier.receive(&f.partial_evaluate(&vec![]), 10);
    let mut g = f.partial_evaluate(&vec![10]);
    g.coeffs[0] = g.coeffs[0].add(&Fe::from_u64(3));
    verifier.receive(&g, 7);
    assert_eq!(verifier.state, State::Reject);
    assert_eq!(verifier.challenges, vec![10]);
    assert_eq!(verifier.claim, Fe::from_u64(40));
}

#[test]
fn corrupted_last_message_that_keeps_the_sum_fails_the_final_check() {
    // 26 + 72 X and 27 + 70 X agree on g(0) + g(1) but not at 3.
    let f = sample_poly();
    let mut verifier = Verifier::new(3, 1, f.sum_all_evals());
    verifier.receive(&f.partial_evaluate(&vec![]), 10);
    verifier.receive(&f.partial_evaluate(&vec![10]), 7);
    verifier.receive(&poly(&[27, 70]), 3);
    assert_eq!(verifier.state, State::Final);
    assert!(!verifier.finalize(&f.evaluate(&vec![10, 7, 3])));
    assert_eq!(verifier.state, State::Reject);
}

#[test]
fn wrong_claimed_sum_is_rejected() {
    let f = sample_poly();
    let mut verifier = Verifier::new(3, 1, Fe::from_u64(62));
    verifier.receive(&f.partial_evaluate(&vec![]), 10);
    assert_eq!(verifier.state, State::Reject);
}

#[test]
fn message_above_the_degree_bound_is_rejected() {
    // 30 + 0 X + 1 X^2 sums to 61 as 30 + X does, but has degree 2.
    let mut verifier = Verifier::new(3, 1, Fe::from_u64(61));
    verifier.receive(&poly(&[30, 0, 1]), 10);
    assert_eq!(verifier.state, State::Reject);
    // High zero coefficients do not raise the degree.
    let mut verifier = Verifier::new(3, 1, Fe::from_u64(61));
    verifier.receive(&poly(&[30, 1, 0]), 10);
    assert_eq!(verifier.state, State::Round(1));
    // With a bound of 2 the quadratic message passes.
    let mut verifier = Verifier::new(3, 2, Fe::from_u64(61));
    verifier.receive(&poly(&[30, 0, 1]), 10);
    assert_eq!(verifier.state, State::Round(1));
    assert_eq!(verifier.claim, Fe::from_u64(130));
}

#[test]
fn reject_and_accept_are_terminal() {
    let f = sample_poly();
    let mut verifier = Verifier::new(3, 1, Fe::from_u64(62));
    verifier.receive(&f.partial_evaluate(&vec![]), 10);
    assert_eq!(verifier.state, State::Reject);
    verifier.receive(&f.partial_evaluate(&vec![]), 10);
    assert_eq!(verifier.state, State::Reject);
    assert!(!verifier.finalize(&Fe::from_u64(62)));
    assert_eq!(verifier.state, State::Reject);

    let constant = MPolynomial { var_num: 0, coeffs: vec![Fe::from_u64(9)] };
    let mut verifier = Verifier::new(0, 1, constant.sum_all_evals());
    assert_eq!(verifier.state, State::Final);
    assert!(verifier.finalize(&constant.evaluate(&vec![])));
    assert_eq!(verifier.state, State::Accept);
    assert!(verifier.finalize(&Fe::zero()));
    assert_eq!(verifier.state, State::Accept);
    verifier.receive(&poly(&[9]), 1);
    assert_eq!(verifier.state, State::Accept);
}

#[test]
fn finalize_before_the_last_round_rejects() {
    let f = sample_poly();
    let mut verifier = Verifier::new(3, 1, f.sum_all_evals());
    verifier.receive(&f.partial_evaluate(&vec![]), 10);
    assert!(!verifier.finalize(&Fe::from_u64(40)));
    assert_eq!(verifier.state, State::Reject);
}

#[test]
fn message_after_the_last_round_rejects() {
    let f = MPolynomial { var_num: 1, coeffs: vec![Fe::from_u64(4), Fe::from_u64(6)] };
    let mut verifier = Verifier::new(1, 1, f.sum_all_evals());
    verifier.receive(&f.partial_evaluate(&vec![]), 2);
    assert_eq!(verifier.state, State::Final);
    verifier.receive(&f.partial_evaluate(&vec![]), 2);
    assert_eq!(verifier.state, State::Reject);
}

#[test]
fn check_message_tests_degree_and_sum() {
    let verifier = Verifier::new(3, 1, Fe::from_u64(61));
    assert!(verifier.check_message(&poly(&[30, 1])));
    assert!(!verifier.check_message(&poly(&[30, 2])));
    assert!(!verifier.check_message(&poly(&[30, 0, 1])));
    // the empty polynomial sums to zero
    assert!(!verifier.check_message(&poly(&[])));
    assert!(Verifier::new(3, 1, Fe::zero()).check_message(&poly(&[])));
}

#[test]
fn challenge_is_read_from_the_first_eight_bytes() {
    let mut bytes = [0u8; 32];
    assert_eq!(challenge_from_bytes(&bytes), 0);
    bytes[0] = 1;
    assert_eq!(challenge_from_bytes(&bytes), 1);
    bytes[1] = 1;
    assert_eq!(challenge_from_bytes(&bytes), 257);
    bytes[8] = 0xff;
    bytes[31] = 0xff;
    assert_eq!(challenge_from_bytes(&bytes), 257);
    let mut bytes = [0u8; 32];
    bytes[..8].copy_from_slice(&0x0123_4567_89ab_cdefu64.to_le_bytes());
    assert_eq!(challenge_from_bytes(&bytes) as u64, 0x0123_4567_89ab_cdefu64 & (usize::MAX as u64));
}
