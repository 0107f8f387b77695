//! The verifier of the sum-check protocol, as a state machine.
//!
//! It starts in `Init`, takes one message per variable, and after the last
//! one stands in `Final`, where one comparison with an oracle value decides
//! between `Accept` and `Reject`. A message that fails a check leads to
//! `Reject` at once, and `Reject` is never left.

use crate::field::{le_value, lemma_add_mod, modulus, Fe};
use crate::identities::{
    lemma_hypercube_sum_full, lemma_hypercube_sum_splits, lemma_partial_evaluate_consistent,
};
use crate::multivar_poly::{hypercube_sum, mle_eval, partial_eval_spec, MPolynomial};
use crate::transcript::Transcript;
use crate::univar_poly::{degree_at_most, poly_eval, Polynomial};
use vstd::prelude::*;

verus! {

/// Where a verification session stands.
#[derive(Clone, Copy, Debug, PartialEq, Eq)]
pub enum State {
    /// No message has been received.
    Init,
    /// So many rounds have passed their checks and more are to come.
    Round(usize),
    /// Every round has passed; the final check is outstanding.
    Final,
    /// The final check has passed. Terminal.
    Accept,
    /// A check has failed. Terminal.
    Reject,
}

/// The state of a verification session.
pub struct Verifier {
    /// The number of rounds.
    pub var_num: usize,
    /// The highest degree that a message may have.
    pub max_degree: usize,
    /// The value that the next message has to sum to, and after the last
    /// round the value that the oracle has to confirm.
    pub claim: Fe,
    /// The challenges drawn so far, one per round passed.
    pub challenges: Vec<usize>,
    /// Where the session stands.
    pub state: State,
}

/// The mathematical content of a `Verifier`.
pub struct VerifierView {
    pub var_num: int,
    pub max_degree: int,
    pub claim: int,
    pub challenges: Seq<int>,
    pub state: State,
}

impl View for Verifier {
    type V = VerifierView;

    open spec fn view(&self) -> VerifierView {
        VerifierView {
            var_num: self.var_num as int,
            max_degree: self.max_degree as int,
            claim: self.claim@,
            challenges: Seq::new(self.challenges@.len(), |i: int| self.challenges@[i] as int),
            state: self.state,
        }
    }
}

/// The state of a session in which `done` of `var_num` rounds have passed.
pub open spec fn progress_state(done: int, var_num: int) -> State {
    if done >= var_num {
        State::Final
    } else if done <= 0 {
        State::Init
    } else {
        State::Round(done as usize)
    }
}

/// Whether a round message is awaited in this state.
pub open spec fn expects_message(state: State) -> bool {
    state is Init || state is Round
}

/// The two checks on a round message: its degree is within the bound, and
/// its values at 0 and at 1 add up to the running claim.
pub open spec fn round_checks(claim: int, max_degree: int, g: Seq<int>) -> bool {
    &&& degree_at_most(g, max_degree)
    &&& (poly_eval(g, 0) + poly_eval(g, 1)) % modulus() == claim
}

/// The session at its start, with the sum that the prover claims.
pub open spec fn start(var_num: int, max_degree: int, claimed_sum: int) -> VerifierView {
    VerifierView {
        var_num,
        max_degree,
        claim: claimed_sum,
        challenges: Seq::empty(),
        state: progress_state(0, var_num),
    }
}

/// The transition on the round message `g`, answered with the challenge `r`.
/// A message that passes the checks moves the claim to `g(r)`; one that fails
/// them, or that comes when all rounds have passed, rejects. `Accept` and
/// `Reject` are terminal.
pub open spec fn step(s: VerifierView, g: Seq<int>, r: int) -> VerifierView {
    if expects_message(s.state) {
        if round_checks(s.claim, s.max_degree, g) {
            VerifierView {
                claim: poly_eval(g, r) % modulus(),
                challenges: s.challenges.push(r),
                state: progress_state(s.challenges.len() as int + 1, s.var_num),
                ..s
            }
        } else {
            VerifierView { state: State::Reject, ..s }
        }
    } else if s.state is Final {
        VerifierView { state: State::Reject, ..s }
    } else {
        s
    }
}

/// The final check: in `Final` the claim is compared with the oracle's value
/// of the polynomial at the challenges. Before `Final` there is nothing to
/// accept.
pub open spec fn conclude(s: VerifierView, oracle_value: int) -> VerifierView {
    if s.state is Final {
        if s.claim == oracle_value {
            VerifierView { state: State::Accept, ..s }
        } else {
            VerifierView { state: State::Reject, ..s }
        }
    } else if expects_message(s.state) {
        VerifierView { state: State::Reject, ..s }
    } else {
        s
    }
}

/// The challenge that 32 transcript bytes stand for: the little-endian value
/// of the first eight, reduced to the range of `usize`.
pub open spec fn challenge_value(bytes: Seq<u8>) -> int {
    le_value(bytes.take(8)) % (usize::MAX + 1)
}

/// Reads a challenge out of the bytes that the transcript gave.
pub fn challenge_from_bytes(bytes: &[u8; 32]) -> (r: usize)
    ensures
        r as int == challenge_value(bytes@),
{
    let mut acc: u64 = 0;
    let mut i: usize = 8;
    proof {
        assert(bytes@.take(8).skip(8) =~= Seq::<u8>::empty());
        vstd::arithmetic::power::lemma_pow0(256);
    }
    while i > 0
        invariant
            i <= 8,
            acc as int == le_value(bytes@.take(8).skip(i as int)),
            (acc as int) < vstd::arithmetic::power::pow(256, (8 - i) as nat),
        decreases i,
    {
        i = i - 1;
        proof {
            let tail = bytes@.take(8).skip(i + 1);
            let here = bytes@.take(8).skip(i as int);
            assert(here.skip(1) =~= tail);
            assert(here[0] == bytes@[i as int]);
            vstd::arithmetic::power::lemma_pow1(256);
            vstd::arithmetic::power::lemma_pow_adds(256, 1, (8 - i - 1) as nat);
            lemma_pow256_8();
            vstd::arithmetic::power::lemma_pow_increases(256, (8 - i) as nat, 8);
        }
        acc = acc * 256 + bytes[i] as u64;
    }
    assert(bytes@.take(8).skip(0) =~= bytes@.take(8));
    let limit: u64 = usize::MAX as u64;
    if acc <= limit {
        proof {
            vstd::arithmetic::div_mod::lemma_small_mod(acc as nat, (usize::MAX + 1) as nat);
        }
        acc as usize
    } else {
        (acc % (limit + 1)) as usize
    }
}

/// `256^8` is `2^64`.
proof fn lemma_pow256_8()
    ensures
        vstd::arithmetic::power::pow(256, 8) == 0x1_0000_0000_0000_0000,
{
    reveal_with_fuel(vstd::arithmetic::power::pow, 9);
}

impl Verifier {
    /// The claim is a field element, and the state agrees with the number of
    /// challenges drawn.
    pub open spec fn wf(&self) -> bool {
        &&& self.claim.wf()
        &&& match self.state {
            State::Reject => true,
            State::Accept => self.challenges@.len() == self.var_num,
            _ => self.challenges@.len() <= self.var_num && self.state == progress_state(
                self.challenges@.len() as int,
                self.var_num as int,
            ),
        }
    }

    /// A session over `var_num` rounds for the sum `claimed_sum`.
    pub fn new(var_num: usize, max_degree: usize, claimed_sum: Fe) -> (r: Verifier)
        requires
            claimed_sum.wf(),
        ensures
            r.wf(),
            r@ == start(var_num as int, max_degree as int, claimed_sum@),
    {
        let state = if var_num == 0 {
            State::Final
        } else {
            State::Init
        };
        let r = Verifier { var_num, max_degree, claim: claimed_sum, challenges: Vec::new(), state };
        assert(r@.challenges =~= Seq::<int>::empty());
        r
    }

    /// Whether the message `g` passes the checks of the current round.
    pub fn check_message(&self, g: &Polynomial) -> (ok: bool)
        requires
            self.claim.wf(),
            g.wf(),
        ensures
            ok == round_checks(self.claim@, self.max_degree as int, g@),
    {
        let d = g.degree();
        if d > self.max_degree {
            return false;
        }
        let at_zero = g.evaluate(Fe::zero());
        let at_one = g.evaluate(Fe::one());
        let total = at_zero.add(&at_one);
        proof {
            lemma_add_mod(poly_eval(g@, 0), poly_eval(g@, 1));
        }
        total.equals(&self.claim)
    }

    /// Takes the round message `g` and answers it with `challenge`.
    pub fn receive(&mut self, g: &Polynomial, challenge: usize)
        requires
            old(self).wf(),
            g.wf(),
        ensures
            final(self).wf(),
            final(self)@ == step(old(self)@, g@, challenge as int),
    {
        match self.state {
            State::Init | State::Round(_) => {
                if self.check_message(g) {
                    self.claim = g.evaluate(Fe::from_u64(challenge as u64));
                    self.challenges.push(challenge);
                    let done = self.challenges.len();
                    self.state = if done >= self.var_num {
                        State::Final
                    } else {
                        State::Round(done)
                    };
                    assert(final(self)@.challenges =~= old(self)@.challenges.push(challenge as int));
                } else {
                    self.state = State::Reject;
                }
            },
            State::Final => {
                self.state = State::Reject;
            },
            State::Accept | State::Reject => {},
        }
    }

    /// Plays one round against a transcript: where the message passes the
    /// checks, its encoding is absorbed, one challenge is drawn and the
    /// session moves on with it; where it does not, the transcript is left
    /// alone. Returns the challenge that was drawn.
    pub fn round<T: Transcript>(&mut self, g: &Polynomial, transcript: &mut T) -> (drawn: Option<
        usize,
    >)
        requires
            old(self).wf(),
            g.wf(),
        ensures
            final(self).wf(),
            drawn is Some <==> expects_message(old(self).state) && round_checks(
                old(self).claim@,
                old(self).max_degree as int,
                g@,
            ),
            final(self)@ == step(
                old(self)@,
                g@,
                match drawn {
                    Some(r) => r as int,
                    None => 0,
                },
            ),
    {
        let awaited = match self.state {
            State::Init | State::Round(_) => true,
            _ => false,
        };
        if awaited && self.check_message(g) {
            let message = g.to_bytes();
            transcript.append(message.as_slice());
            let bytes = transcript.challenge();
            let challenge = challenge_from_bytes(&bytes);
            self.receive(g, challenge);
            Some(challenge)
        } else {
            self.receive(g, 0);
            None
        }
    }

    /// The final check against the value that the oracle gives for the
    /// polynomial at the challenges. Returns whether the session accepts.
    pub fn finalize(&mut self, oracle_value: &Fe) -> (accepted: bool)
        requires
            old(self).wf(),
            oracle_value.wf(),
        ensures
            final(self).wf(),
            final(self)@ == conclude(old(self)@, oracle_value@),
            accepted == (final(self).state is Accept),
    {
        match self.state {
            State::Final => {
                if self.claim.equals(oracle_value) {
                    self.state = State::Accept;
                    true
                } else {
                    self.state = State::Reject;
                    false
                }
            },
            State::Init | State::Round(_) => {
                self.state = State::Reject;
                false
            },
            State::Accept => true,
            State::Reject => false,
        }
    }
}

/// The session of the verifier after `i` rounds with the honest prover for
/// the polynomial with coefficients `c`: the prover claims the sum of the
/// polynomial over the hypercube, and answers the challenges `rs[0..j]` with
/// the partial evaluation at them.
pub open spec fn honest_run(c: Seq<int>, v: int, rs: Seq<int>, i: int) -> VerifierView
    decreases i,
{
    if i <= 0 {
        start(v, 1, hypercube_sum(c, v, Seq::empty()) % modulus())
    } else {
        step(honest_run(c, v, rs, i - 1), partial_eval_spec(c, v, rs.take(i - 1)), rs[i - 1])
    }
}

/// Every message of the honest prover passes its round: after `i` rounds the
/// session has not rejected, and its claim is the sum of the polynomial over
/// the completions of the first `i` challenges.
pub proof fn lemma_honest_rounds_pass(f: MPolynomial, rs: Seq<int>, i: int)
    requires
        f.wf(),
        rs.len() == f.var_num,
        0 <= i <= f.var_num,
    ensures
        honest_run(f@, f.var_num as int, rs, i).state == progress_state(i, f.var_num as int),
        honest_run(f@, f.var_num as int, rs, i).claim == hypercube_sum(
            f@,
            f.var_num as int,
            rs.take(i),
        ) % modulus(),
        honest_run(f@, f.var_num as int, rs, i).challenges == rs.take(i),
        honest_run(f@, f.var_num as int, rs, i).var_num == f.var_num,
        honest_run(f@, f.var_num as int, rs, i).max_degree == 1,
    decreases i,
{
    let v = f.var_num as int;
    if i <= 0 {
        assert(rs.take(0) =~= Seq::<int>::empty());
    } else {
        lemma_honest_rounds_pass(f, rs, i - 1);
        let before = honest_run(f@, v, rs, i - 1);
        let prefix = rs.take(i - 1);
        let r = rs[i - 1];
        let g = partial_eval_spec(f@, v, prefix);
        let h0 = hypercube_sum(f@, v, prefix.push(0));
        let h1 = hypercube_sum(f@, v, prefix.push(1));
        lemma_partial_evaluate_consistent(f, prefix, 0);
        lemma_partial_evaluate_consistent(f, prefix, 1);
        lemma_partial_evaluate_consistent(f, prefix, r);
        lemma_hypercube_sum_splits(f@, v, prefix);
        lemma_add_mod(poly_eval(g, 0), poly_eval(g, 1));
        lemma_add_mod(h0, h1);
        assert(round_checks(before.claim, 1, g));
        assert(expects_message(before.state));
        assert(prefix.push(r) =~= rs.take(i));
    }
}

/// Completeness of the protocol: whatever the challenges are, the verifier
/// accepts when the prover claims the true sum of a multilinear polynomial,
/// sends its partial evaluations as messages, and the oracle gives the value
/// of the polynomial at the challenges.
pub proof fn lemma_honest_prover_accepted(f: MPolynomial, rs: Seq<int>)
    requires
        f.wf(),
        rs.len() == f.var_num,
    ensures
        conclude(
            honest_run(f@, f.var_num as int, rs, f.var_num as int),
            mle_eval(f@, f.var_num as int, rs) % modulus(),
        ).state == State::Accept,
{
    let v = f.var_num as int;
    lemma_honest_rounds_pass(f, rs, v);
    assert(rs.take(v) =~= rs);
    lemma_hypercube_sum_full(f@, v, rs);
}

} // verus!
