//! Multilinear polynomials over `var_num` Boolean variables, as a dense table
//! of coefficients indexed by exponent bitmask.

use crate::bits::{as_ints, bit, bits, checked_hypercube_size, hypercube_size};
use crate::field::{all_wf, fe_values, lemma_add_mod, lemma_mul_mod, modulus, Fe};
use crate::sums::{lemma_prod_ext, lemma_prod_zero_factor, lemma_sum_sub, prod, sum};
use crate::univar_poly::{degree_at_most, Polynomial};
use crate::utils::convert_to_binary;
use vstd::arithmetic::power2::{lemma_pow2_strictly_increases, pow2};
use vstd::prelude::*;

verus! {

/// Factor `j` of a monomial: the coordinate `d[j]` where the exponent `e[j]`
/// is 1, and 1 elsewhere.
pub open spec fn selected_factor(e: Seq<int>, d: Seq<int>) -> spec_fn(int) -> int {
    |j: int|
        if e[j] == 1 {
            d[j]
        } else {
            1
        }
}

/// The product of the coordinates of `d` that the exponent vector `e` selects.
pub open spec fn selected_product(e: Seq<int>, d: Seq<int>) -> int {
    prod(e.len() as int, selected_factor(e, d))
}

/// The value at `d` of the monomial with index `i` among `v` variables: the
/// product of `d[j]` over the variables `j` whose bit of `i` is set.
pub open spec fn monomial(i: int, v: int, d: Seq<int>) -> int {
    selected_product(bits(i, v), d)
}

/// Term `i` of a multilinear polynomial at `d`.
pub open spec fn eval_term(c: Seq<int>, v: int, d: Seq<int>) -> spec_fn(int) -> int {
    |i: int| c[i] * monomial(i, v, d)
}

/// The value at `d` of the multilinear polynomial over `v` variables with
/// coefficient table `c`: the sum over all indices `i` of `c[i]` times the
/// monomial of `i`.
pub open spec fn mle_eval(c: Seq<int>, v: int, d: Seq<int>) -> int {
    sum(pow2(v as nat) as int, eval_term(c, v, d))
}

/// The value of the polynomial at `fixed` completed by the hypercube point with
/// index `n`.
pub open spec fn completion_eval(c: Seq<int>, v: int, fixed: Seq<int>) -> spec_fn(int) -> int {
    |n: int| mle_eval(c, v, fixed + bits(n, v - fixed.len()))
}

/// The sum of the polynomial over every hypercube completion of `fixed`: the
/// first `fixed.len()` variables are bound, the others range over `{0, 1}`.
pub open spec fn hypercube_sum(c: Seq<int>, v: int, fixed: Seq<int>) -> int {
    sum(pow2((v - fixed.len()) as nat) as int, completion_eval(c, v, fixed))
}

/// The coefficients of the univariate polynomial that is left when the first
/// variables are bound to `prefix`, the next one is kept as `X`, and the rest
/// is summed over the hypercube. The polynomial is multilinear in `X`, so it
/// is `g(0) + (g(1) - g(0)) * X`.
pub open spec fn partial_eval_spec(c: Seq<int>, v: int, prefix: Seq<int>) -> Seq<int> {
    seq![
        hypercube_sum(c, v, prefix.push(0)) % modulus(),
        (hypercube_sum(c, v, prefix.push(1)) - hypercube_sum(c, v, prefix.push(0))) % modulus(),
    ]
}

/// Where bit `j` of `i` is clear, the monomial of `i` does not see
/// coordinate `j`.
pub proof fn lemma_monomial_ignores(i: int, v: int, d: Seq<int>, d2: Seq<int>, j: int)
    requires
        0 <= j < v,
        bit(i, v, j) == 0,
        forall|k: int| 0 <= k < v && k != j ==> d[k] == d2[k],
    ensures
        monomial(i, v, d) == monomial(i, v, d2),
{
    let e = bits(i, v);
    assert forall|k: int| 0 <= k < v implies #[trigger] selected_factor(e, d)(k)
        == selected_factor(e, d2)(k) by {}
    lemma_prod_ext(v, selected_factor(e, d), selected_factor(e, d2));
}

/// Where bit `j` of `i` is set and coordinate `j` is zero, the monomial of `i`
/// vanishes.
pub proof fn lemma_monomial_vanishes(i: int, v: int, d: Seq<int>, j: int)
    requires
        0 <= j < v,
        bit(i, v, j) == 1,
        d[j] == 0,
    ensures
        monomial(i, v, d) == 0,
{
    lemma_prod_zero_factor(v, selected_factor(bits(i, v), d), j);
}

/// The field elements that stand for a vector of machine integers.
pub fn to_field(domain: &Vec<usize>) -> (points: Vec<Fe>)
    ensures
        points@.len() == domain@.len(),
        all_wf(points@),
        fe_values(points@) == as_ints(domain@),
{
    let mut points: Vec<Fe> = Vec::new();
    let mut j: usize = 0;
    while j < domain.len()
        invariant
            j <= domain@.len(),
            points@.len() == j,
            all_wf(points@),
            forall|k: int| 0 <= k < j ==> (#[trigger] points@[k])@ == domain@[k] as int,
        decreases domain@.len() - j,
    {
        points.push(Fe::from_u64(domain[j] as u64));
        j = j + 1;
    }
    assert(fe_values(points@) =~= as_ints(domain@));
    points
}

/// The product of the points that the exponent vector selects. It stops at
/// the first selected point that is zero.
pub fn monomial_value(exps: &Vec<usize>, points: &Vec<Fe>) -> (r: Fe)
    requires
        exps@.len() == points@.len(),
        all_wf(points@),
    ensures
        r.wf(),
        r@ == selected_product(as_ints(exps@), fe_values(points@)) % modulus(),
{
    let n = exps.len();
    let ghost f = selected_factor(as_ints(exps@), fe_values(points@));
    let mut acc = Fe::one();
    let mut j: usize = 0;
    while j < n
        invariant
            j <= n,
            n == exps@.len(),
            n == points@.len(),
            all_wf(points@),
            f == selected_factor(as_ints(exps@), fe_values(points@)),
            acc.wf(),
            acc@ == prod(j as int, f) % modulus(),
        decreases n - j,
    {
        if exps[j] == 1 {
            if points[j].is_zero() {
                proof {
                    lemma_prod_zero_factor(n as int, f, j as int);
                }
                return Fe::zero();
            }
            let next = acc.mul(&points[j]);
            proof {
                lemma_mul_mod(prod(j as int, f), f(j as int));
            }
            acc = next;
        } else {
            assert(prod(j as int, f) * 1 == prod(j as int, f));
        }
        j = j + 1;
    }
    acc
}

/// The point `prefix ++ [x] ++ rest`.
pub fn assemble_point(prefix: &Vec<usize>, x: usize, rest: &Vec<usize>) -> (out: Vec<usize>)
    ensures
        as_ints(out@) == as_ints(prefix@).push(x as int) + as_ints(rest@),
{
    let mut out: Vec<usize> = Vec::new();
    let mut k: usize = 0;
    while k < prefix.len()
        invariant
            k <= prefix@.len(),
            out@.len() == k,
            forall|t: int| 0 <= t < k ==> out@[t] == prefix@[t],
        decreases prefix@.len() - k,
    {
        out.push(prefix[k]);
        k = k + 1;
    }
    out.push(x);
    let mut k: usize = 0;
    while k < rest.len()
        invariant
            k <= rest@.len(),
            out@.len() == prefix@.len() + 1 + k,
            forall|t: int| 0 <= t < prefix@.len() ==> out@[t] == prefix@[t],
            out@[prefix@.len() as int] == x,
            forall|t: int| 0 <= t < k ==> out@[prefix@.len() + 1 + t] == rest@[t],
        decreases rest@.len() - k,
    {
        out.push(rest[k]);
        k = k + 1;
    }
    assert(as_ints(out@) =~= as_ints(prefix@).push(x as int) + as_ints(rest@));
    out
}

/// A multilinear polynomial: `coeffs[i]` is the coefficient of the monomial
/// whose exponent vector is the `var_num`-bit expansion of `i`, most
/// significant bit first.
#[derive(Debug, Clone, Eq, PartialEq)]
pub struct MPolynomial {
    pub var_num: usize,
    pub coeffs: Vec<Fe>,
}

impl View for MPolynomial {
    type V = Seq<int>;

    /// The coefficient table as integers in `[0, q)`.
    open spec fn view(&self) -> Seq<int> {
        fe_values(self.coeffs@)
    }
}

impl MPolynomial {
    /// The table has one coefficient for each of the `2^var_num` monomials.
    pub open spec fn full_table(&self) -> bool {
        self.coeffs@.len() == pow2(self.var_num as nat)
    }

    /// The table is full and its coefficients are well formed.
    pub open spec fn wf(&self) -> bool {
        &&& self.full_table()
        &&& all_wf(self.coeffs@)
    }

    /// Whether the table has one coefficient for each of the `2^var_num`
    /// monomials.
    pub fn has_full_table(&self) -> (b: bool)
        ensures
            b == self.full_table(),
    {
        let len = self.coeffs.len();
        match checked_hypercube_size(self.var_num) {
            Some(n) => len == n,
            None => false,
        }
    }

    /// The value of the polynomial at `domain`, one coordinate per variable.
    /// Terms with a zero coefficient are skipped.
    pub fn evaluate(&self, domain: &Vec<usize>) -> (r: Fe)
        requires
            self.wf(),
            domain@.len() == self.var_num,
        ensures
            r.wf(),
            r@ == mle_eval(self@, self.var_num as int, as_ints(domain@)) % modulus(),
    {
        let points = to_field(domain);
        let n = self.coeffs.len();
        let ghost term = eval_term(self@, self.var_num as int, as_ints(domain@));
        let mut acc = Fe::zero();
        let mut i: usize = 0;
        while i < n
            invariant
                i <= n,
                n == self.coeffs@.len(),
                self.wf(),
                points@.len() == self.var_num,
                all_wf(points@),
                fe_values(points@) == as_ints(domain@),
                term == eval_term(self@, self.var_num as int, as_ints(domain@)),
                acc.wf(),
                acc@ == sum(i as int, term) % modulus(),
            decreases n - i,
        {
            let c = self.coeffs[i];
            if !c.is_zero() {
                let exps = convert_to_binary(&self.var_num, i);
                let m = monomial_value(&exps, &points);
                let t = c.mul(&m);
                let next = acc.add(&t);
                proof {
                    let mono = monomial(i as int, self.var_num as int, as_ints(domain@));
                    lemma_mul_mod(c@, mono);
                    lemma_add_mod(sum(i as int, term), c@ * mono);
                }
                acc = next;
            } else {
                assert(term(i as int) == 0 * monomial(
                    i as int,
                    self.var_num as int,
                    as_ints(domain@),
                ));
            }
            i = i + 1;
        }
        acc
    }

    /// The sum of the polynomial over the whole hypercube.
    pub fn sum_all_evals(&self) -> (r: Fe)
        requires
            self.wf(),
        ensures
            r.wf(),
            r@ == hypercube_sum(self@, self.var_num as int, Seq::empty()) % modulus(),
    {
        let n = self.coeffs.len();
        let ghost each = completion_eval(self@, self.var_num as int, Seq::empty());
        let mut acc = Fe::zero();
        let mut k: usize = 0;
        while k < n
            invariant
                k <= n,
                n == pow2(self.var_num as nat),
                self.wf(),
                each == completion_eval(self@, self.var_num as int, Seq::empty()),
                acc.wf(),
                acc@ == sum(k as int, each) % modulus(),
            decreases n - k,
        {
            let point = convert_to_binary(&self.var_num, k);
            let value = self.evaluate(&point);
            let next = acc.add(&value);
            proof {
                assert(Seq::<int>::empty() + bits(k as int, self.var_num as int) =~= as_ints(
                    point@,
                ));
                lemma_add_mod(sum(k as int, each), each(k as int));
            }
            acc = next;
            k = k + 1;
        }
        acc
    }

    /// Binds the first variables to `challenge_domain`, keeps the next one as
    /// `X`, sums the rest over the hypercube, and returns the polynomial in
    /// `X` that is left. The result always has the two coefficients of a
    /// polynomial of degree at most one.
    ///
    /// For each assignment of the trailing variables, the contribution of
    /// each nonzero coefficient is added to the slot that the exponent of `X`
    /// in its monomial names.
    pub fn partial_evaluate(&self, challenge_domain: &Vec<usize>) -> (r: Polynomial)
        requires
            self.wf(),
            challenge_domain@.len() < self.var_num,
        ensures
            r.wf(),
            r@ == partial_eval_spec(self@, self.var_num as int, as_ints(challenge_domain@)),
            degree_at_most(r@, 1),
    {
        let j = challenge_domain.len();
        let extra_var_num = self.var_num - j - 1;
        let n = self.coeffs.len();
        proof {
            lemma_pow2_strictly_increases(extra_var_num as nat, self.var_num as nat);
        }
        let extra_n = hypercube_size(extra_var_num);
        let ghost v = self.var_num as int;
        let ghost prefix = as_ints(challenge_domain@);
        let ghost at_zero = completion_eval(self@, v, prefix.push(0));
        let ghost at_one = completion_eval(self@, v, prefix.push(1));
        let ghost slope = |k: int| at_one(k) - at_zero(k);
        let mut acc0 = Fe::zero();
        let mut acc1 = Fe::zero();
        let mut k: usize = 0;
        while k < extra_n
            invariant
                k <= extra_n,
                extra_n == pow2(extra_var_num as nat),
                n == self.coeffs@.len(),
                self.wf(),
                j == challenge_domain@.len(),
                j < self.var_num,
                extra_var_num == self.var_num - j - 1,
                v == self.var_num as int,
                prefix == as_ints(challenge_domain@),
                at_zero == completion_eval(self@, v, prefix.push(0)),
                at_one == completion_eval(self@, v, prefix.push(1)),
                slope == |k: int| at_one(k) - at_zero(k),
                acc0.wf(),
                acc1.wf(),
                acc0@ == sum(k as int, at_zero) % modulus(),
                acc1@ == sum(k as int, slope) % modulus(),
            decreases extra_n - k,
        {
            let extra = convert_to_binary(&extra_var_num, k);
            let domain = assemble_point(challenge_domain, 1, &extra);
            let points = to_field(&domain);
            let ghost d0 = prefix.push(0) + bits(k as int, extra_var_num as int);
            let ghost d1 = prefix.push(1) + bits(k as int, extra_var_num as int);
            let ghost term0 = eval_term(self@, v, d0);
            let ghost term1 = eval_term(self@, v, d1);
            let ghost diff = |i: int| term1(i) - term0(i);
            let ghost base0 = sum(k as int, at_zero);
            let ghost base1 = sum(k as int, slope);
            assert(as_ints(domain@) == d1);
            assert(domain@.len() == as_ints(domain@).len());
            let mut i: usize = 0;
            while i < n
                invariant
                    i <= n,
                    n == self.coeffs@.len(),
                    self.wf(),
                    j < self.var_num,
                    v == self.var_num as int,
                    j == prefix.len(),
                    points@.len() == self.var_num,
                    all_wf(points@),
                    fe_values(points@) == d1,
                    d0 == prefix.push(0) + bits(k as int, extra_var_num as int),
                    d1 == prefix.push(1) + bits(k as int, extra_var_num as int),
                    extra_var_num == self.var_num - j - 1,
                    term0 == eval_term(self@, v, d0),
                    term1 == eval_term(self@, v, d1),
                    diff == |i: int| term1(i) - term0(i),
                    acc0.wf(),
                    acc1.wf(),
                    acc0@ == (base0 + sum(i as int, term0)) % modulus(),
                    acc1@ == (base1 + sum(i as int, diff)) % modulus(),
                decreases n - i,
            {
                let c = self.coeffs[i];
                if !c.is_zero() {
                    let exps = convert_to_binary(&self.var_num, i);
                    let m = monomial_value(&exps, &points);
                    let t = c.mul(&m);
                    proof {
                        lemma_mul_mod(c@, monomial(i as int, v, d1));
                        assert(d0[j as int] == 0);
                        assert(d1[j as int] == 1);
                        assert(as_ints(exps@)[j as int] == bit(i as int, v, j as int));
                    }
                    if exps[j] == 0 {
                        let next = acc0.add(&t);
                        proof {
                            assert forall|p: int| 0 <= p < v && p != j implies d1[p] == d0[p] by {}
                            lemma_monomial_ignores(i as int, v, d1, d0, j as int);
                            lemma_add_mod(base0 + sum(i as int, term0), term0(i as int));
                        }
                        acc0 = next;
                    } else {
                        let next = acc1.add(&t);
                        proof {
                            lemma_monomial_vanishes(i as int, v, d0, j as int);
                            assert(term0(i as int) == c@ * 0);
                            lemma_add_mod(base1 + sum(i as int, diff), diff(i as int));
                        }
                        acc1 = next;
                    }
                } else {
                    assert(term0(i as int) == 0 * monomial(i as int, v, d0));
                    assert(term1(i as int) == 0 * monomial(i as int, v, d1));
                }
                i = i + 1;
            }
            proof {
                lemma_sum_sub(n as int, term1, term0, diff);
                assert(at_zero(k as int) == sum(n as int, term0));
                assert(at_one(k as int) == sum(n as int, term1));
            }
            k = k + 1;
        }
        proof {
            lemma_sum_sub(extra_n as int, at_one, at_zero, slope);
        }
        let r = Polynomial { coeffs: vec![acc0, acc1] };
        assert(r@ =~= partial_eval_spec(self@, v, prefix));
        r
    }
}

} // verus!
