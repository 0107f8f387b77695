//! The prover of the sum-check protocol for one layer of a layered
//! arithmetic circuit.
//!
//! The layer is given by two gate selectors, `add` and `mult`, and by the
//! multilinear extension `w_i_plus_1` of the wire values of the next layer.
//! The selectors take the output gate `r_i`, already bound, and then the two
//! input gates.

use crate::bits::{as_ints, bits};
use crate::field::{all_wf, lemma_add_mod, lemma_mul_mod, modulus, Fe};
use crate::multivar_poly::{hypercube_sum, mle_eval, partial_eval_spec, MPolynomial};
use crate::sums::sum;
use crate::univar_poly::{degree_at_most, poly_add, poly_mul, Polynomial};
use crate::utils::{concat_points, convert_to_binary};
use vstd::arithmetic::power2::pow2;
use vstd::prelude::*;

verus! {

/// The two gate selectors and the next layer's wire polynomial.
#[allow(non_camel_case_types)]
pub type F_r_Poly = (MPolynomial, MPolynomial, MPolynomial);

/// The term of the layer sum for the input gates with indices `a` and `b`:
/// `add(r, a, b) * (W(a) + W(b)) + mult(r, a, b) * (W(a) * W(b))`.
pub open spec fn gate_term(
    add: Seq<int>,
    mult: Seq<int>,
    w: Seq<int>,
    k: int,
    r: Seq<int>,
    a: int,
) -> spec_fn(int) -> int {
    |b: int|
        {
            let point = r + bits(a, k) + bits(b, k);
            let w_a = mle_eval(w, k, bits(a, k));
            let w_b = mle_eval(w, k, bits(b, k));
            mle_eval(add, r.len() + 2 * k, point) * (w_a + w_b) + mle_eval(
                mult,
                r.len() + 2 * k,
                point,
            ) * (w_a * w_b)
        }
}

/// The part of the layer sum with the first input gate at index `a`.
pub open spec fn gate_row(add: Seq<int>, mult: Seq<int>, w: Seq<int>, k: int, r: Seq<int>)
    -> spec_fn(int) -> int {
    |a: int| sum(pow2(k as nat) as int, gate_term(add, mult, w, k, r, a))
}

/// The sum of a layer: `gate_term` added up for every two input gates on
/// the hypercube.
pub open spec fn layer_sum(add: Seq<int>, mult: Seq<int>, w: Seq<int>, k: int, r: Seq<int>)
    -> int {
    sum(pow2(k as nat) as int, gate_row(add, mult, w, k, r))
}

/// The round message as the prover combines it from the partial evaluations
/// `pa` of `add`, `pm` of `mult` and `pw` of the wire polynomial, and from
/// the constant polynomial `wb`:
/// `pa * pw + (pa * wb + (pm * pw) * wb)`.
pub open spec fn combine_round(pa: Seq<int>, pm: Seq<int>, pw: Seq<int>, wb: Seq<int>) -> Seq<
    int,
> {
    poly_add(poly_mul(pa, pw), poly_add(poly_mul(pa, wb), poly_mul(poly_mul(pm, pw), wb)))
}

/// The state of the prover.
pub struct Prover {
    /// The number of bound variables, those of the output gate.
    pub v_l: usize,
    /// The number of variables that the rounds run over.
    pub v_r: usize,
    /// The selector of the addition gates.
    pub add: MPolynomial,
    /// The selector of the multiplication gates.
    pub mult: MPolynomial,
    /// The multilinear extension of the wire values of the next layer.
    pub w_i_plus_1: MPolynomial,
    /// The output gate, bound before the first round.
    pub r_i: Vec<usize>,
}

impl Prover {
    /// The coefficients of the three polynomials are well formed.
    pub open spec fn wf(&self) -> bool {
        &&& all_wf(self.add.coeffs@)
        &&& all_wf(self.mult.coeffs@)
        &&& all_wf(self.w_i_plus_1.coeffs@)
    }

    /// Whether the tables have the shape for a round after `done` challenges:
    /// each is full, each selector has a free variable left after the bound
    /// prefix and the challenges, and so has the wire polynomial after the
    /// challenges.
    pub open spec fn round_shape(&self, done: int) -> bool {
        &&& self.add.full_table()
        &&& self.mult.full_table()
        &&& self.w_i_plus_1.full_table()
        &&& self.r_i@.len() + done < self.add.var_num
        &&& self.r_i@.len() + done < self.mult.var_num
        &&& done < self.w_i_plus_1.var_num
    }

    /// Whether a round can be played after `done` challenges.
    pub open spec fn round_ready(&self, done: int) -> bool {
        &&& self.wf()
        &&& self.round_shape(done)
    }

    /// Whether the tables have the shape for the layer sum: each is full, and
    /// the selectors run over the bound prefix and two input gates.
    pub open spec fn sum_shape(&self) -> bool {
        &&& self.add.full_table()
        &&& self.mult.full_table()
        &&& self.w_i_plus_1.full_table()
        &&& self.add.var_num == self.r_i@.len() + 2 * self.w_i_plus_1.var_num
        &&& self.mult.var_num == self.r_i@.len() + 2 * self.w_i_plus_1.var_num
    }

    /// The message of the round that follows the challenges `done`.
    pub open spec fn round_spec(&self, done: Seq<int>) -> Seq<int> {
        combine_round(
            partial_eval_spec(self.add@, self.add.var_num as int, as_ints(self.r_i@) + done),
            partial_eval_spec(self.mult@, self.mult.var_num as int, as_ints(self.r_i@) + done),
            partial_eval_spec(self.w_i_plus_1@, self.w_i_plus_1.var_num as int, done),
            seq![
                hypercube_sum(self.w_i_plus_1@, self.w_i_plus_1.var_num as int, Seq::empty())
                    % modulus(),
            ],
        )
    }

    /// A prover for the variable counts `(v_l, v_r)`, the polynomials
    /// `(add, mult, w_i_plus_1)` and the bound output gate `r_i`.
    pub fn new(dims: (usize, usize), polys: F_r_Poly, r_i: Vec<usize>) -> (r: Self)
        ensures
            r.v_l == dims.0,
            r.v_r == dims.1,
            r.add == polys.0,
            r.mult == polys.1,
            r.w_i_plus_1 == polys.2,
            r.r_i == r_i,
    {
        let (v_l, v_r) = dims;
        let (add, mult, w_i_plus_1) = polys;
        Self { v_l, v_r, add, mult, w_i_plus_1, r_i }
    }

    /// Tests `round_shape` at run time.
    pub fn has_round_shape(&self, done: usize) -> (b: bool)
        ensures
            b == self.round_shape(done as int),
    {
        let full = self.add.has_full_table() && self.mult.has_full_table()
            && self.w_i_plus_1.has_full_table();
        let bound = self.r_i.len();
        let add_free = done < self.add.var_num && bound < self.add.var_num - done;
        let mult_free = done < self.mult.var_num && bound < self.mult.var_num - done;
        full && add_free && mult_free && done < self.w_i_plus_1.var_num
    }

    /// Tests `sum_shape` at run time.
    pub fn has_sum_shape(&self) -> (b: bool)
        ensures
            b == self.sum_shape(),
    {
        let full = self.add.has_full_table() && self.mult.has_full_table()
            && self.w_i_plus_1.has_full_table();
        let bound = self.r_i.len();
        let total = self.add.var_num;
        let gates = total >= bound && (total - bound) % 2 == 0 && (total - bound) / 2
            == self.w_i_plus_1.var_num;
        full && gates && self.mult.var_num == total
    }

    /// The claimed sum of the layer: the sum over all pairs `(a, b)` of input
    /// gates of `add(r, a, b) * (W(a) + W(b)) + mult(r, a, b) * (W(a) * W(b))`,
    /// by iterating over the hypercube twice.
    pub fn claimed_sum(&self) -> (res: Fe)
        requires
            self.wf(),
            self.sum_shape(),
        ensures
            res.wf(),
            res@ == layer_sum(
                self.add@,
                self.mult@,
                self.w_i_plus_1@,
                self.w_i_plus_1.var_num as int,
                as_ints(self.r_i@),
            ) % modulus(),
    {
        let k_i_plus_1 = self.w_i_plus_1.var_num;
        let n = self.w_i_plus_1.coeffs.len();
        let ghost k = k_i_plus_1 as int;
        let ghost r = as_ints(self.r_i@);
        let ghost row = gate_row(self.add@, self.mult@, self.w_i_plus_1@, k, r);
        let mut res = Fe::zero();
        let mut i: usize = 0;
        while i < n
            invariant
                i <= n,
                n == pow2(k_i_plus_1 as nat),
                self.wf(),
                self.sum_shape(),
                k_i_plus_1 == self.w_i_plus_1.var_num,
                k == k_i_plus_1 as int,
                r == as_ints(self.r_i@),
                row == gate_row(self.add@, self.mult@, self.w_i_plus_1@, k, r),
                res.wf(),
                res@ == sum(i as int, row) % modulus(),
            decreases n - i,
        {
            let a = convert_to_binary(&k_i_plus_1, i);
            let w_a = self.w_i_plus_1.evaluate(&a);
            let ops_domain = concat_points(&self.r_i, &a);
            let ghost term = gate_term(self.add@, self.mult@, self.w_i_plus_1@, k, r, i as int);
            let ghost before = sum(i as int, row);
            let mut j: usize = 0;
            while j < n
                invariant
                    j <= n,
                    i < n,
                    n == pow2(k_i_plus_1 as nat),
                    self.wf(),
                    self.sum_shape(),
                    k_i_plus_1 == self.w_i_plus_1.var_num,
                    k == k_i_plus_1 as int,
                    r == as_ints(self.r_i@),
                    a@.len() == k_i_plus_1,
                    as_ints(a@) == bits(i as int, k),
                    ops_domain@ == self.r_i@ + a@,
                    as_ints(ops_domain@) == r + bits(i as int, k),
                    w_a.wf(),
                    w_a@ == mle_eval(self.w_i_plus_1@, k, bits(i as int, k)) % modulus(),
                    term == gate_term(self.add@, self.mult@, self.w_i_plus_1@, k, r, i as int),
                    res.wf(),
                    res@ == (before + sum(j as int, term)) % modulus(),
                decreases n - j,
            {
                let b = convert_to_binary(&k_i_plus_1, j);
                let w_b = self.w_i_plus_1.evaluate(&b);
                let point = concat_points(&ops_domain, &b);
                let add_i = self.add.evaluate(&point);
                let multi = self.mult.evaluate(&point);
                let by_add = add_i.mul(&w_a.add(&w_b));
                let by_mult = multi.mul(&w_a.mul(&w_b));
                let gate = by_add.add(&by_mult);
                let next = res.add(&gate);
                proof {
                    let p = r + bits(i as int, k) + bits(j as int, k);
                    let av = mle_eval(self.add@, r.len() + 2 * k, p);
                    let mv = mle_eval(self.mult@, r.len() + 2 * k, p);
                    let wa = mle_eval(self.w_i_plus_1@, k, bits(i as int, k));
                    let wb = mle_eval(self.w_i_plus_1@, k, bits(j as int, k));
                    assert(as_ints(point@) == p);
                    lemma_add_mod(wa, wb);
                    lemma_mul_mod(av, wa + wb);
                    lemma_mul_mod(wa, wb);
                    lemma_mul_mod(mv, wa * wb);
                    lemma_add_mod(av * (wa + wb), mv * (wa * wb));
                    assert(term(j as int) == av * (wa + wb) + mv * (wa * wb));
                    lemma_add_mod(before + sum(j as int, term), term(j as int));
                }
                res = next;
                j = j + 1;
            }
            i = i + 1;
        }
        res
    }

    /// The message of the round after the challenges in `challenges`, for
    /// the prefix `ops_challenge_domain` of the selectors.
    fn round_message(&self, challenges: &Vec<usize>) -> (r: Polynomial)
        requires
            self.round_ready(challenges@.len() as int),
        ensures
            r.wf(),
            r@ == self.round_spec(as_ints(challenges@)),
            degree_at_most(r@, 2),
    {
        // partial_evaluate with (r_i, challenge, X, x_i)
        let ops_challenge_domain = concat_points(&self.r_i, challenges);
        let poly_add = self.add.partial_evaluate(&ops_challenge_domain);
        let poly_mult = self.mult.partial_evaluate(&ops_challenge_domain);

        let poly_w_a = self.w_i_plus_1.partial_evaluate(challenges);
        let w_b = Polynomial { coeffs: vec![self.w_i_plus_1.sum_all_evals()] };

        assert(poly_add@.len() == 2 && poly_mult@.len() == 2 && poly_w_a@.len() == 2);
        assert(w_b@ =~= seq![
            hypercube_sum(self.w_i_plus_1@, self.w_i_plus_1.var_num as int, Seq::empty())
                % modulus(),
        ]);
        // poly_add * poly_w_a + poly_add * w_b + poly_mult * (poly_w_a * w_b)
        let by_mult = poly_mult.mul(&poly_w_a);
        assert(by_mult@.len() == 3);
        poly_add.mul(&poly_w_a).add(&poly_add.mul(&w_b).add(&by_mult.mul(&w_b)))
    }

    /// The message of the first round: no challenge has been received yet.
    pub fn round_1(&self) -> (r: Polynomial)
        requires
            self.round_ready(0),
        ensures
            r.wf(),
            r@ == self.round_spec(Seq::empty()),
            degree_at_most(r@, 2),
    {
        let none: Vec<usize> = Vec::new();
        assert(as_ints(none@) =~= Seq::<int>::empty());
        self.round_message(&none)
    }

    /// The message of a middle round, after the challenges of the rounds
    /// before it.
    pub fn recursive_round_j(&self, challenges: &Vec<usize>) -> (r: Polynomial)
        requires
            self.v_r > challenges@.len() || challenges@.len() >= 1,
            self.round_ready(challenges@.len() as int),
        ensures
            r.wf(),
            r@ == self.round_spec(as_ints(challenges@)),
            degree_at_most(r@, 2),
    {
        self.round_message(challenges)
    }

    /// The message of the last round, which the verifier answers with the
    /// final check instead of another challenge.
    pub fn round_v(&self, challenges: &Vec<usize>) -> (r: Polynomial)
        requires
            self.v_r - 1 == challenges@.len(),
            self.round_ready(challenges@.len() as int),
        ensures
            r.wf(),
            r@ == self.round_spec(as_ints(challenges@)),
            degree_at_most(r@, 2),
    {
        self.round_message(challenges)
    }
}

} // verus!
