//! The algebraic identities that tie evaluation, partial evaluation and the
//! hypercube sum together. The sum-check rounds rest on them.

use crate::bits::{bit, bits};
use crate::field::{lemma_add_mod, lemma_mul_mod, modulus};
use crate::multivar_poly::{
    completion_eval, eval_term, hypercube_sum, lemma_monomial_ignores, lemma_monomial_vanishes,
    mle_eval, monomial, partial_eval_spec, selected_factor, MPolynomial,
};
use crate::sums::{lemma_prod_scale_factor, lemma_sum_affine, lemma_sum_ext, lemma_sum_split, sum};
use crate::univar_poly::poly_eval;
use vstd::arithmetic::div_mod::{lemma_div_multiples_vanish_fancy, lemma_fundamental_div_mod, lemma_small_mod};
use vstd::arithmetic::power::{lemma_pow0, lemma_pow1, pow};
use vstd::arithmetic::power2::{lemma_pow2_adds, lemma_pow2_pos, lemma_pow2_unfold, pow2};
use vstd::prelude::*;

verus! {

/// A monomial is affine in each coordinate: its value at `r` in coordinate `j`
/// lies on the line through its values at 0 and at 1.
pub proof fn lemma_monomial_affine(
    i: int,
    v: int,
    j: int,
    r: int,
    d0: Seq<int>,
    d1: Seq<int>,
    dr: Seq<int>,
)
    requires
        0 <= j < v,
        d0[j] == 0,
        d1[j] == 1,
        dr[j] == r,
        forall|k: int| 0 <= k < v && k != j ==> d0[k] == d1[k] && dr[k] == d1[k],
    ensures
        monomial(i, v, dr) == monomial(i, v, d0) + r * (monomial(i, v, d1) - monomial(i, v, d0)),
{
    let m1 = monomial(i, v, d1);
    if bit(i, v, j) == 1 {
        lemma_monomial_vanishes(i, v, d0, j);
        let e = bits(i, v);
        assert(selected_factor(e, dr)(j) == r * selected_factor(e, d1)(j));
        lemma_prod_scale_factor(v, selected_factor(e, d1), selected_factor(e, dr), j, r);
    } else {
        lemma_monomial_ignores(i, v, d1, d0, j);
        lemma_monomial_ignores(i, v, d1, dr, j);
        assert(r * (m1 - m1) == 0);
    }
}

/// A multilinear polynomial is affine in each coordinate.
pub proof fn lemma_mle_eval_affine(
    c: Seq<int>,
    v: int,
    j: int,
    r: int,
    d0: Seq<int>,
    d1: Seq<int>,
    dr: Seq<int>,
)
    requires
        0 <= j < v,
        d0[j] == 0,
        d1[j] == 1,
        dr[j] == r,
        forall|k: int| 0 <= k < v && k != j ==> d0[k] == d1[k] && dr[k] == d1[k],
    ensures
        mle_eval(c, v, dr) == mle_eval(c, v, d0) + r * (mle_eval(c, v, d1) - mle_eval(c, v, d0)),
{
    let t0 = eval_term(c, v, d0);
    let t1 = eval_term(c, v, d1);
    let tr = eval_term(c, v, dr);
    assert forall|i: int| 0 <= i < pow2(v as nat) implies #[trigger] tr(i) == t0(i) + r * (t1(i)
        - t0(i)) by {
        lemma_monomial_affine(i, v, j, r, d0, d1, dr);
        let ci = c[i];
        let m0 = monomial(i, v, d0);
        let m1 = monomial(i, v, d1);
        assert(ci * (m0 + r * (m1 - m0)) == ci * m0 + r * (ci * m1 - ci * m0))
            by (nonlinear_arith);
    }
    lemma_sum_affine(pow2(v as nat) as int, r, t0, t1, tr);
}

/// The hypercube sum is affine in the last bound coordinate.
pub proof fn lemma_hypercube_sum_affine(c: Seq<int>, v: int, prefix: Seq<int>, r: int)
    requires
        prefix.len() < v,
    ensures
        hypercube_sum(c, v, prefix.push(r)) == hypercube_sum(c, v, prefix.push(0)) + r * (
        hypercube_sum(c, v, prefix.push(1)) - hypercube_sum(c, v, prefix.push(0))),
{
    let j = prefix.len() as int;
    let m = v - j - 1;
    let f0 = completion_eval(c, v, prefix.push(0));
    let f1 = completion_eval(c, v, prefix.push(1));
    let fr = completion_eval(c, v, prefix.push(r));
    assert forall|n: int| 0 <= n < pow2(m as nat) implies #[trigger] fr(n) == f0(n) + r * (f1(n)
        - f0(n)) by {
        let b = bits(n, m);
        lemma_mle_eval_affine(
            c,
            v,
            j,
            r,
            prefix.push(0) + b,
            prefix.push(1) + b,
            prefix.push(r) + b,
        );
    }
    lemma_sum_affine(pow2(m as nat) as int, r, f0, f1, fr);
}

/// Partial evaluation is consistent with evaluation: the value at `r` of the
/// polynomial that `partial_evaluate` returns for `prefix` is, in the field,
/// the sum of the multilinear polynomial over every hypercube completion of
/// `prefix ++ [r]`.
pub proof fn lemma_partial_evaluate_consistent(f: MPolynomial, prefix: Seq<int>, r: int)
    requires
        f.wf(),
        prefix.len() < f.var_num,
    ensures
        poly_eval(partial_eval_spec(f@, f.var_num as int, prefix), r) % modulus() == hypercube_sum(
            f@,
            f.var_num as int,
            prefix.push(r),
        ) % modulus(),
{
    let v = f.var_num as int;
    let h0 = hypercube_sum(f@, v, prefix.push(0));
    let h1 = hypercube_sum(f@, v, prefix.push(1));
    let g = partial_eval_spec(f@, v, prefix);
    let term = |i: int| g[i] * pow(r, i as nat);
    assert(sum(2, term) == sum(1, term) + term(1));
    assert(sum(1, term) == sum(0, term) + term(0));
    lemma_pow0(r);
    lemma_pow1(r);
    assert(poly_eval(g, r) == g[0] + g[1] * r);
    lemma_hypercube_sum_affine(f@, v, prefix, r);
    lemma_mul_mod(h1 - h0, r);
    lemma_add_mod(h0, (h1 - h0) * r);
    lemma_add_mod(h0, g[1] * r);
    assert((h1 - h0) * r == r * (h1 - h0)) by (nonlinear_arith);
}

/// Below `2^(m-1)` the top bit of `m` is clear and the others are the bits
/// of the same number among `m - 1`; adding `2^(m-1)` sets the top bit and
/// leaves the others.
pub proof fn lemma_bits_top(n: int, m: int)
    requires
        m >= 1,
        0 <= n < pow2((m - 1) as nat),
    ensures
        bits(n, m) == seq![0int] + bits(n, m - 1),
        bits(pow2((m - 1) as nat) + n, m) == seq![1int] + bits(n, m - 1),
{
    let half = pow2((m - 1) as nat) as int;
    let lo = seq![0int] + bits(n, m - 1);
    let hi = seq![1int] + bits(n, m - 1);
    lemma_pow2_pos((m - 1) as nat);
    assert forall|j: int| 0 <= j < m implies bits(n, m)[j] == lo[j] && bits(half + n, m)[j]
        == hi[j] by {
        if j == 0 {
            lemma_small_mod(n as nat, half as nat);
            lemma_fundamental_div_mod(n, half);
            assert(n / half == 0) by (nonlinear_arith)
                requires
                    0 <= n < half,
            ;
            lemma_div_multiples_vanish_fancy(1, n, half);
            assert(1 * half + n == half + n);
        } else {
            let p = pow2((m - 1 - j) as nat) as int;
            let q = pow2(j as nat) as int;
            lemma_pow2_pos((m - 1 - j) as nat);
            lemma_pow2_adds(j as nat, (m - 1 - j) as nat);
            lemma_pow2_unfold(j as nat);
            assert(half == q * p);
            // (q * p + n) / p == q + n / p
            lemma_fundamental_div_mod(n, p);
            let nq = n / p;
            let nr = n % p;
            assert(q * p + n == p * (q + nq) + nr) by (nonlinear_arith)
                requires
                    n == p * nq + nr,
            ;
            vstd::arithmetic::div_mod::lemma_fundamental_div_mod_converse(
                q * p + n,
                p,
                q + nq,
                nr,
            );
            assert(q % 2 == 0);
            assert(bit(n, m - 1, j - 1) == bit(n, m, j));
        }
    }
    assert(bits(n, m) =~= lo);
    assert(bits(half + n, m) =~= hi);
}

/// The hypercube sum splits on the first free variable: the sum with one more
/// variable bound to 0 plus the sum with it bound to 1.
pub proof fn lemma_hypercube_sum_splits(c: Seq<int>, v: int, fixed: Seq<int>)
    requires
        fixed.len() < v,
    ensures
        hypercube_sum(c, v, fixed) == hypercube_sum(c, v, fixed.push(0)) + hypercube_sum(
            c,
            v,
            fixed.push(1),
        ),
{
    let m = v - fixed.len();
    let half = pow2((m - 1) as nat) as int;
    let all = completion_eval(c, v, fixed);
    let f0 = completion_eval(c, v, fixed.push(0));
    let f1 = completion_eval(c, v, fixed.push(1));
    lemma_pow2_unfold(m as nat);
    assert forall|n: int| 0 <= n < half implies #[trigger] all(n) == f0(n) by {
        lemma_bits_top(n, m);
        assert(fixed.push(0) + bits(n, m - 1) =~= fixed + bits(n, m));
    }
    assert forall|n: int| 0 <= n < half implies #[trigger] f1(n) == all(half + n) by {
        lemma_bits_top(n, m);
        assert(fixed.push(1) + bits(n, m - 1) =~= fixed + bits(half + n, m));
    }
    lemma_sum_split(half, half, all, f1);
    lemma_sum_ext(half, all, f0);
}

/// With every variable bound, the hypercube sum is the value at that point.
pub proof fn lemma_hypercube_sum_full(c: Seq<int>, v: int, point: Seq<int>)
    requires
        point.len() == v,
    ensures
        hypercube_sum(c, v, point) == mle_eval(c, v, point),
{
    let f = completion_eval(c, v, point);
    vstd::arithmetic::power2::lemma2_to64();
    assert(sum(1, f) == sum(0, f) + f(0));
    assert(point + bits(0, 0) =~= point);
}

} // verus!
