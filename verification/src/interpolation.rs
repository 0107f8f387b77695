//! Lagrange interpolation over the Boolean hypercube: the basis polynomials
//! and the multilinear extension of a table of values.

use crate::bits::{as_ints, bit, bits, hypercube_size, is_binary, lemma_bit_peel};
use crate::field::{
    all_wf, fe_values, lemma_add_mod, lemma_mul_mod, modulus, zero_table, Fe,
};
use crate::multivar_poly::{eval_term, mle_eval, monomial, selected_factor, MPolynomial};
use crate::or_index::{index_or, lemma_index_or_single_bit};
use crate::sums::{
    lemma_prod_ext, lemma_sum_add, lemma_sum_cong, lemma_sum_exchange, lemma_sum_pair,
    lemma_sum_pairs, lemma_sum_scale, lemma_sum_single, lemma_sum_zero, prod, sum,
};
use crate::utils::{convert_to_binary, expand_factor_for_mpoly, or_cell, or_conv, or_row};
use vstd::arithmetic::div_mod::{
    lemma_div_denominator, lemma_fundamental_div_mod, lemma_fundamental_div_mod_converse,
    lemma_mod_breakdown, lemma_mod_multiples_vanish, lemma_small_mod,
};
use vstd::arithmetic::power2::{
    lemma2_to64, lemma_pow2_adds, lemma_pow2_pos, lemma_pow2_strictly_increases,
    lemma_pow2_unfold, pow2,
};
use vstd::prelude::*;

verus! {

/// The coefficient that the factor of a basis polynomial for one variable
/// gives to a monomial. For a point coordinate 1 the factor is `x`; for 0 it
/// is `1 - x`. `b` says whether the monomial holds the variable.
pub open spec fn factor_coeff(wj: int, b: int) -> int {
    if wj == 1 {
        if b == 1 {
            1
        } else {
            0
        }
    } else {
        if b == 1 {
            -1
        } else {
            1
        }
    }
}

/// The factor that variable `j` gives to coefficient `k` of the basis
/// polynomial of the point `w`.
pub open spec fn basis_factor(w: Seq<int>, v: int, k: int) -> spec_fn(int) -> int {
    |j: int| factor_coeff(w[j], bit(k, v, j))
}

/// Coefficient `k` of the basis polynomial of the hypercube point `w`, the
/// product over the variables of `x_j * w_j + (1 - x_j) * (1 - w_j)`: it is
/// 0 when the monomial `k` lacks a variable at which `w` is 1, and otherwise
/// 1 or -1 by the parity of the variables of `k` at which `w` is 0.
pub open spec fn basis_coeff(w: Seq<int>, v: int, k: int) -> int {
    prod(v, basis_factor(w, v, k))
}

/// Coefficient `k` of the product of the factors of the first `t` variables.
/// Only monomials in those variables occur in it.
pub open spec fn basis_prefix(w: Seq<int>, v: int, t: int, k: int) -> int {
    if k % (pow2((v - t) as nat) as int) == 0 {
        prod(t, basis_factor(w, v, k))
    } else {
        0
    }
}

/// Entry `q` of the coefficient table of the factor for variable `t`, as a
/// field element: `x_t` where the point coordinate is 1, `1 - x_t` where it
/// is 0.
pub open spec fn single_factor(v: int, t: int, wt: int, q: int) -> int {
    if q == 0 {
        if wt == 1 {
            0
        } else {
            1
        }
    } else if q == pow2((v - 1 - t) as nat) {
        if wt == 1 {
            1
        } else {
            modulus() - 1
        }
    } else {
        0
    }
}

/// Term `w` of an interpolated coefficient: the table value at `w` times the
/// coefficient of the basis polynomial of `w`.
pub open spec fn lagrange_term(evals: Seq<int>, v: int, k: int) -> spec_fn(int) -> int {
    |w: int| evals[w] * basis_coeff(bits(w, v), v, k)
}

/// Coefficient `k` of the multilinear extension of `evals`, before reduction:
/// the sum over the hypercube points `w` of `evals[w]` times coefficient `k`
/// of the basis polynomial of `w`.
pub open spec fn lagrange_coeff(evals: Seq<int>, v: int, k: int) -> int {
    sum(pow2(v as nat) as int, lagrange_term(evals, v, k))
}

/// Expanding by a table with entries at 0 and at the single bit `2^s` only:
/// position `k` gets the entry at 0 times its own coefficient, and, where
/// bit `s` of `k` is set, the entry at `2^s` times the coefficients at `k`
/// and at `k` without that bit.
pub proof fn lemma_or_conv_single_bit(a: Seq<int>, b: Seq<int>, v: nat, s: nat, k: int)
    requires
        pow2(v) <= u64::MAX,
        a.len() == pow2(v),
        b.len() == pow2(v),
        s < v,
        0 <= k < pow2(v),
        forall|q: int| 0 <= q < b.len() && q != 0 && q != pow2(s) ==> b[q] == 0,
    ensures
        or_conv(a, b, k) == b[0] * a[k] + b[pow2(s) as int] * (if (k / (pow2(s) as int)) % 2 == 1 {
            a[k] + a[k - pow2(s)]
        } else {
            0
        }),
{
    let n = pow2(v) as int;
    let e = pow2(s) as int;
    lemma_pow2_pos(s);
    lemma_pow2_strictly_increases(s, v);
    let direct = |p: int|
        if p == k {
            a[p] * b[0]
        } else {
            0
        };
    let shifted = |p: int|
        if index_or(p, e) == k {
            a[p] * b[e]
        } else {
            0
        };
    assert forall|p: int| 0 <= p < n implies #[trigger] or_row(a, b, k)(p) == direct(p) + shifted(
        p,
    ) by {
        let cell = or_cell(a, b, k, p);
        assert forall|q: int| 0 <= q < n && q != 0 && q != e implies #[trigger] cell(q) == 0 by {
            assert(a[p] * b[q] == 0) by (nonlinear_arith)
                requires
                    b[q] == 0,
            ;
        }
        lemma_sum_pair(n, 0, e, cell);
        lemma_index_or_single_bit(p, k, s);
    }
    lemma_sum_add(n, direct, shifted, or_row(a, b, k));
    lemma_sum_single(n, k, direct);
    lemma_index_or_single_bit(k, k, s);
    if (k / e) % 2 == 1 {
        lemma_index_or_single_bit(k - e, k, s);
        assert forall|p: int| 0 <= p < n && p != k - e && p != k implies #[trigger] shifted(p)
            == 0 by {
            lemma_index_or_single_bit(p, k, s);
        }
        lemma_sum_pair(n, k - e, k, shifted);
        assert(b[0] * a[k] + b[e] * (a[k] + a[k - e]) == a[k] * b[0] + (a[k - e] * b[e] + a[k]
            * b[e])) by (nonlinear_arith);
    } else {
        assert forall|p: int| 0 <= p < n implies #[trigger] shifted(p) == 0 by {
            lemma_index_or_single_bit(p, k, s);
        }
        lemma_sum_zero(n, shifted);
        assert(b[e] * 0 == 0);
        assert(b[0] * a[k] == a[k] * b[0]) by (nonlinear_arith);
    }
}

/// How the low `l` bits of `k` split into bit `l - 1` and the bits below it.
pub proof fn lemma_low_bits(k: int, l: nat)
    requires
        l >= 1,
        k >= 0,
    ensures
        k % (pow2(l) as int) == pow2((l - 1) as nat) * ((k / (pow2((l - 1) as nat) as int)) % 2)
            + k % (pow2((l - 1) as nat) as int),
        0 <= k % (pow2((l - 1) as nat) as int) < pow2((l - 1) as nat),
        pow2(l) == 2 * pow2((l - 1) as nat),
{
    let e = pow2((l - 1) as nat) as int;
    lemma_pow2_pos((l - 1) as nat);
    lemma_pow2_unfold(l);
    lemma_mod_breakdown(k, e, 2);
    assert(e * 2 == 2 * e);
}

/// Clearing a set bit of `k` leaves the bits above it as they are, and the
/// bits below it too.
pub proof fn lemma_clear_bit(k: int, v: int, t: int)
    requires
        0 <= t < v,
        k >= 0,
        bit(k, v, t) == 1,
    ensures
        k >= pow2((v - 1 - t) as nat),
        forall|j: int| 0 <= j < t ==> bit(k - pow2((v - 1 - t) as nat), v, j) == bit(k, v, j),
        (k - pow2((v - 1 - t) as nat)) % (pow2((v - t) as nat) as int) == k % (pow2(
            (v - 1 - t) as nat,
        ) as int),
        k % (pow2((v - t) as nat) as int) == pow2((v - 1 - t) as nat) + k % (pow2(
            (v - 1 - t) as nat,
        ) as int),
{
    let l = (v - t) as nat;
    let e = pow2((l - 1) as nat) as int;
    let two_e = pow2(l) as int;
    lemma_low_bits(k, l);
    assert(e * 1 == e);
    let r = k % two_e;
    let qk = k / two_e;
    lemma_fundamental_div_mod(k, two_e);
    assert(r == e + k % e);
    assert(k >= e) by (nonlinear_arith)
        requires
            k == two_e * qk + r,
            r >= e,
            k >= 0,
            two_e > 0,
            e > 0,
            r < two_e,
    {
        if qk < 0 {
            assert(two_e * qk <= -two_e);
        }
    }
    assert(k - e == two_e * qk + (r - e));
    lemma_fundamental_div_mod_converse(k - e, two_e, qk, r - e);
    assert forall|j: int| 0 <= j < t implies bit(k - e, v, j) == bit(k, v, j) by {
        let m = pow2((t - j - 1) as nat) as int;
        lemma_pow2_pos((t - j - 1) as nat);
        lemma_pow2_adds(l, (t - j - 1) as nat);
        assert(pow2((v - 1 - j) as nat) == two_e * m);
        lemma_div_denominator(k, two_e, m);
        lemma_div_denominator(k - e, two_e, m);
    }
}

/// One step of building a basis polynomial: expanding the product of the
/// first `t` factors by the factor of variable `t` gives the product of the
/// first `t + 1` factors.
pub proof fn lemma_basis_step(w: Seq<int>, v: int, t: int, a: Seq<int>, b: Seq<int>, k: int)
    requires
        0 <= t < v,
        pow2(v as nat) <= u64::MAX,
        a.len() == pow2(v as nat),
        b.len() == pow2(v as nat),
        0 <= k < pow2(v as nat),
        w[t] == 0 || w[t] == 1,
        forall|i: int| 0 <= i < a.len() ==> a[i] == basis_prefix(w, v, t, i) % modulus(),
        forall|q: int| 0 <= q < b.len() ==> b[q] == single_factor(v, t, w[t], q),
    ensures
        or_conv(a, b, k) % modulus() == basis_prefix(w, v, t + 1, k) % modulus(),
{
    let s = (v - 1 - t) as nat;
    let l = (v - t) as nat;
    let e = pow2(s) as int;
    let two_e = pow2(l) as int;
    let f = basis_factor(w, v, k);
    let x = prod(t, f);
    lemma_pow2_pos(s);
    lemma_pow2_strictly_increases(s, v as nat);
    lemma_or_conv_single_bit(a, b, v as nat, s, k);
    lemma_low_bits(k, l);
    assert(bit(k, v, t) == (k / e) % 2);
    assert(prod(t + 1, f) == x * f(t));
    if bit(k, v, t) == 1 {
        lemma_clear_bit(k, v, t);
        let k2 = k - e;
        assert(a[k] == 0);
        if k % e == 0 {
            assert(a[k2] == basis_prefix(w, v, t, k2) % modulus());
            assert forall|j: int| 0 <= j < t implies #[trigger] basis_factor(w, v, k2)(j) == f(
                j,
            ) by {}
            lemma_prod_ext(t, basis_factor(w, v, k2), f);
            assert(a[k2] == x % modulus());
            if w[t] == 1 {
                assert(or_conv(a, b, k) == 0 * a[k] + 1 * (a[k] + a[k2]));
                assert(x * 1 == x);
            } else {
                assert(or_conv(a, b, k) == 1 * a[k] + (modulus() - 1) * (a[k] + a[k2]));
                let y = a[k2];
                assert((modulus() - 1) * y == modulus() * y + (-y)) by (nonlinear_arith);
                lemma_mod_multiples_vanish(y, -y, modulus());
                lemma_mul_mod(-1, x);
                assert((-1) * y == -y);
                assert(x * (-1) == (-1) * x);
            }
        } else {
            assert(a[k2] == 0);
            assert(b[e] * (0 + 0) == 0);
            assert(b[0] * 0 == 0);
        }
    } else {
        assert(bit(k, v, t) == 0);
        assert(e * 0 == 0);
        if k % e == 0 {
            assert(a[k] == x % modulus());
            if w[t] == 1 {
                assert(or_conv(a, b, k) == 0 * a[k] + 1 * 0);
                assert(x * 0 == 0);
            } else {
                assert(or_conv(a, b, k) == 1 * a[k] + (modulus() - 1) * 0);
                assert(x * 1 == x);
                lemma_small_mod((x % modulus()) as nat, modulus() as nat);
            }
        } else {
            assert(a[k] == 0);
            assert(b[0] * 0 == 0);
            assert(b[e] * 0 == 0);
        }
    }
}

/// The coefficient table of the factor for variable `i` of a basis
/// polynomial: `x_i` where `w_i` is 1, `1 - x_i` where it is 0.
pub fn variable_factor(var_num: usize, i: usize, w_i: usize) -> (out: Vec<Fe>)
    requires
        i < var_num,
        pow2(var_num as nat) <= usize::MAX,
        w_i == 0 || w_i == 1,
    ensures
        out@.len() == pow2(var_num as nat),
        all_wf(out@),
        forall|q: int|
            0 <= q < out@.len() ==> (#[trigger] out@[q])@ == single_factor(
                var_num as int,
                i as int,
                w_i as int,
                q,
            ),
{
    proof {
        lemma_pow2_strictly_increases((var_num - 1 - i) as nat, var_num as nat);
        lemma_pow2_pos((var_num - 1 - i) as nat);
    }
    let n = hypercube_size(var_num);
    let index = hypercube_size(var_num - 1 - i);
    let mut factor = zero_table(n);
    let one = Fe::one();
    if w_i == 0 {
        factor.set(0, one);
        factor.set(index, one.neg());
    } else {
        factor.set(index, one);
    }
    factor
}

impl MPolynomial {
    /// The coefficient table of the basis polynomial of the hypercube point
    /// `w`: the polynomial that is 1 at `w` and 0 at every other point of the
    /// hypercube. It is built by expanding the constant 1 by the factor of
    /// each variable in turn.
    pub fn mpoly_langrange_basis(var_num: usize, w: Vec<usize>) -> (out: Vec<Fe>)
        requires
            var_num == w@.len(),
            is_binary(as_ints(w@)),
            pow2(var_num as nat) <= usize::MAX,
        ensures
            out@.len() == pow2(var_num as nat),
            all_wf(out@),
            forall|k: int|
                0 <= k < out@.len() ==> (#[trigger] out@[k])@ == basis_coeff(
                    as_ints(w@),
                    var_num as int,
                    k,
                ) % modulus(),
    {
        let n = hypercube_size(var_num);
        let ghost point = as_ints(w@);
        let ghost v = var_num as int;
        let mut product = zero_table(n);
        proof {
            lemma_pow2_pos(var_num as nat);
        }
        product.set(0, Fe::one());
        proof {
            assert forall|k: int| 0 <= k < n implies (#[trigger] product@[k])@ == basis_prefix(
                point,
                v,
                0,
                k,
            ) % modulus() by {
                lemma_small_mod(k as nat, pow2(var_num as nat));
            }
        }
        let mut i: usize = 0;
        while i < var_num
            invariant
                i <= var_num,
                n == pow2(var_num as nat),
                var_num == w@.len(),
                point == as_ints(w@),
                is_binary(point),
                v == var_num as int,
                product@.len() == n,
                all_wf(product@),
                forall|k: int|
                    0 <= k < n ==> (#[trigger] product@[k])@ == basis_prefix(point, v, i as int, k)
                        % modulus(),
            decreases var_num - i,
        {
            assert(point[i as int] == 0 || point[i as int] == 1);
            assert(point[i as int] == w@[i as int] as int);
            let factor = variable_factor(var_num, i, w[i]);
            let ghost a = fe_values(product@);
            let ghost b = fe_values(factor@);
            product = expand_factor_for_mpoly(var_num, product, factor);
            proof {
                assert forall|k: int| 0 <= k < n implies (#[trigger] product@[k])@ == basis_prefix(
                    point,
                    v,
                    i + 1,
                    k,
                ) % modulus() by {
                    lemma_basis_step(point, v, i as int, a, b, k);
                }
            }
            i = i + 1;
        }
        proof {
            lemma2_to64();
        }
        product
    }

    /// The multilinear extension of a table of values on the hypercube: the
    /// one multilinear polynomial whose value at the point with index `i` is
    /// `evals[i]`. Each point with a nonzero value adds that value times its
    /// basis polynomial.
    pub fn lagrange(var_num: usize, evals: &Vec<Fe>) -> (r: MPolynomial)
        requires
            evals@.len() == pow2(var_num as nat),
            all_wf(evals@),
        ensures
            r.wf(),
            r.var_num == var_num,
            forall|k: int|
                0 <= k < r@.len() ==> #[trigger] r@[k] == lagrange_coeff(
                    fe_values(evals@),
                    var_num as int,
                    k,
                ) % modulus(),
    {
        let n = evals.len();
        let ghost e = fe_values(evals@);
        let ghost v = var_num as int;
        let mut table = zero_table(n);
        let mut i: usize = 0;
        while i < n
            invariant
                i <= n,
                n == evals@.len(),
                n == pow2(var_num as nat),
                all_wf(evals@),
                e == fe_values(evals@),
                v == var_num as int,
                table@.len() == n,
                all_wf(table@),
                forall|k: int|
                    0 <= k < n ==> (#[trigger] table@[k])@ == sum(
                        i as int,
                        lagrange_term(e, v, k),
                    ) % modulus(),
            decreases n - i,
        {
            let f_w = evals[i];
            if !f_w.is_zero() {
                let w_i = convert_to_binary(&var_num, i);
                let ghost point = as_ints(w_i@);
                let basis = Self::mpoly_langrange_basis(var_num, w_i);
                let mut k: usize = 0;
                while k < n
                    invariant
                        k <= n,
                        i < n,
                        n == evals@.len(),
                        n == pow2(var_num as nat),
                        e == fe_values(evals@),
                        v == var_num as int,
                        f_w == evals@[i as int],
                        f_w.wf(),
                        point == bits(i as int, v),
                        basis@.len() == n,
                        all_wf(basis@),
                        forall|t: int|
                            0 <= t < n ==> (#[trigger] basis@[t])@ == basis_coeff(point, v, t)
                                % modulus(),
                        table@.len() == n,
                        all_wf(table@),
                        forall|t: int|
                            0 <= t < k ==> (#[trigger] table@[t])@ == sum(
                                i + 1,
                                lagrange_term(e, v, t),
                            ) % modulus(),
                        forall|t: int|
                            k <= t < n ==> (#[trigger] table@[t])@ == sum(
                                i as int,
                                lagrange_term(e, v, t),
                            ) % modulus(),
                    decreases n - k,
                {
                    let scaled = basis[k].mul(&f_w);
                    let next = table[k].add(&scaled);
                    proof {
                        let bc = basis_coeff(point, v, k as int);
                        lemma_mul_mod(bc, f_w@);
                        lemma_add_mod(sum(i as int, lagrange_term(e, v, k as int)), bc * f_w@);
                        assert(bc * f_w@ == f_w@ * bc) by (nonlinear_arith);
                    }
                    table.set(k, next);
                    k = k + 1;
                }
            } else {
                assert forall|k: int| 0 <= k < n implies #[trigger] lagrange_term(e, v, k)(
                    i as int,
                ) == 0 by {
                    assert(e[i as int] * basis_coeff(bits(i as int, v), v, k) == 0)
                        by (nonlinear_arith)
                        requires
                            e[i as int] == 0,
                    ;
                }
            }
            i = i + 1;
        }
        let r = MPolynomial { var_num, coeffs: table };
        r
    }
}

/// Factor `j` of the value at `x` of the basis polynomial of `w`.
pub open spec fn indicator_factor(w: Seq<int>, x: Seq<int>) -> spec_fn(int) -> int {
    |j: int|
        if w[j] == 1 {
            x[j]
        } else {
            1 - x[j]
        }
}

/// The value at `x` of the basis polynomial of `w` over `v` variables: the
/// product of `x_j` where `w_j` is 1 and of `1 - x_j` where it is 0.
pub open spec fn indicator(w: Seq<int>, v: int, x: Seq<int>) -> int {
    prod(v, indicator_factor(w, x))
}

/// Term `k` of a basis polynomial at `x`.
pub open spec fn basis_term(w: Seq<int>, v: int, x: Seq<int>) -> spec_fn(int) -> int {
    |k: int| basis_coeff(w, v, k) * monomial(k, v, x)
}

/// The coefficients `basis_coeff` are those of the basis polynomial: summed
/// against the monomials at `x` they give the product form.
pub proof fn lemma_basis_value(w: Seq<int>, v: int, x: Seq<int>)
    requires
        v >= 0,
    ensures
        sum(pow2(v as nat) as int, basis_term(w, v, x)) == indicator(w, v, x),
    decreases v,
{
    lemma2_to64();
    let all = basis_term(w, v, x);
    if v == 0 {
        assert(sum(1, all) == sum(0, all) + all(0));
        assert(1 * 1 == 1);
    } else {
        let m = pow2((v - 1) as nat) as int;
        lemma_pow2_unfold(v as nat);
        let w_last = w[v - 1];
        let x_last = x[v - 1];
        let rest = basis_term(w, v - 1, x);
        let chi_last = indicator_factor(w, x)(v - 1);
        let paired = |k: int| all(2 * k) + all(2 * k + 1);
        assert forall|k: int| 0 <= k < m implies #[trigger] paired(k) == chi_last * rest(k) by {
            let bc = basis_coeff(w, v - 1, k);
            let mo = monomial(k, v - 1, x);
            assert forall|b: int| b == 0 || b == 1 implies basis_coeff(w, v, 2 * k + b) == bc
                * factor_coeff(w_last, b) && monomial(2 * k + b, v, x) == mo * (if b == 1 {
                x_last
            } else {
                1
            }) by {
                let kk = 2 * k + b;
                lemma_bit_peel(kk, v);
                assert(kk / 2 == k);
                assert(kk % 2 == b);
                assert forall|j: int| 0 <= j < v - 1 implies #[trigger] basis_factor(w, v, kk)(j)
                    == basis_factor(w, v - 1, k)(j) by {}
                lemma_prod_ext(v - 1, basis_factor(w, v, kk), basis_factor(w, v - 1, k));
                assert forall|j: int| 0 <= j < v - 1 implies #[trigger] selected_factor(
                    bits(kk, v),
                    x,
                )(j) == selected_factor(bits(k, v - 1), x)(j) by {}
                lemma_prod_ext(
                    v - 1,
                    selected_factor(bits(kk, v), x),
                    selected_factor(bits(k, v - 1), x),
                );
            }
            let c0 = factor_coeff(w_last, 0);
            let c1 = factor_coeff(w_last, 1);
            assert(basis_coeff(w, v, 2 * k + 0) == bc * c0);
            assert(monomial(2 * k + 0, v, x) == mo * 1);
            assert(all(2 * k) == (bc * c0) * (mo * 1));
            assert(all(2 * k + 1) == (bc * c1) * (mo * x_last));
            assert((bc * c0) * (mo * 1) + (bc * c1) * (mo * x_last) == (c0 + c1 * x_last) * (bc
                * mo)) by (nonlinear_arith);
            assert(c1 * x_last == if w_last == 1 {
                x_last
            } else {
                -x_last
            }) by (nonlinear_arith)
                requires
                    c1 == if w_last == 1 {
                        1int
                    } else {
                        -1int
                    },
            ;
        }
        lemma_sum_pairs(m, all, paired);
        lemma_sum_scale(m, chi_last, rest, paired);
        lemma_basis_value(w, v - 1, x);
        assert(indicator(w, v, x) == indicator(w, v - 1, x) * chi_last);
        assert(chi_last * indicator(w, v - 1, x) == indicator(w, v - 1, x) * chi_last)
            by (nonlinear_arith);
    }
}

/// At a hypercube point the basis polynomial of a point is 1 if the two are
/// the same point and 0 if not.
pub proof fn lemma_indicator_on_hypercube(w: int, i: int, v: int)
    requires
        v >= 0,
        0 <= w < pow2(v as nat),
        0 <= i < pow2(v as nat),
    ensures
        indicator(bits(w, v), v, bits(i, v)) == if w == i {
            1int
        } else {
            0int
        },
    decreases v,
{
    lemma2_to64();
    if v > 0 {
        lemma_pow2_unfold(v as nat);
        lemma_bit_peel(w, v);
        lemma_bit_peel(i, v);
        let f = indicator_factor(bits(w, v), bits(i, v));
        let g = indicator_factor(bits(w / 2, v - 1), bits(i / 2, v - 1));
        assert forall|j: int| 0 <= j < v - 1 implies #[trigger] f(j) == g(j) by {}
        lemma_prod_ext(v - 1, f, g);
        lemma_indicator_on_hypercube(w / 2, i / 2, v - 1);
        let before = prod(v - 1, g);
        assert(f(v - 1) == if w % 2 == i % 2 {
            1int
        } else {
            0int
        });
        assert(before * 1 == before);
        assert(before * 0 == 0);
        assert(0 * f(v - 1) == 0);
    }
}

/// Interpolation round trip: the multilinear extension that `lagrange` builds
/// from a table takes, at the hypercube point with index `i`, the value
/// `evals[i]`. Here `c` is the coefficient table that `lagrange` returns
/// for `evals`, and the left side is what `evaluate` returns at that point.
pub proof fn lemma_lagrange_round_trip(evals: Seq<int>, v: int, c: Seq<int>, i: int)
    requires
        v >= 0,
        evals.len() == pow2(v as nat),
        c.len() == pow2(v as nat),
        forall|w: int| 0 <= w < evals.len() ==> 0 <= #[trigger] evals[w] < modulus(),
        forall|k: int| 0 <= k < c.len() ==> #[trigger] c[k] == lagrange_coeff(evals, v, k) % modulus(),
        0 <= i < pow2(v as nat),
    ensures
        mle_eval(c, v, bits(i, v)) % modulus() == evals[i],
{
    let n = pow2(v as nat) as int;
    let x = bits(i, v);
    // The reduced coefficients evaluate as the unreduced ones do.
    let reduced = eval_term(c, v, x);
    let exact = |k: int| lagrange_coeff(evals, v, k) * monomial(k, v, x);
    assert forall|k: int| 0 <= k < n implies #[trigger] reduced(k) % modulus() == exact(k)
        % modulus() by {
        lemma_mul_mod(lagrange_coeff(evals, v, k), monomial(k, v, x));
    }
    lemma_sum_cong(n, modulus(), reduced, exact);
    // Exchange the sum over coefficients with the sum over points.
    let cell = |k: int, w: int| (evals[w] * basis_coeff(bits(w, v), v, k)) * monomial(k, v, x);
    let by_point = |w: int| evals[w] * indicator(bits(w, v), v, x);
    assert forall|k: int| 0 <= k < n implies #[trigger] exact(k) == sum(
        n,
        |w: int| cell(k, w),
    ) by {
        let mo = monomial(k, v, x);
        let term = lagrange_term(evals, v, k);
        let row = |w: int| cell(k, w);
        assert forall|w: int| 0 <= w < n implies #[trigger] row(w) == mo * term(w) by {
            let t = evals[w] * basis_coeff(bits(w, v), v, k);
            assert(t * mo == mo * t) by (nonlinear_arith);
        }
        lemma_sum_scale(n, mo, term, row);
        let lc = lagrange_coeff(evals, v, k);
        assert(lc * mo == mo * lc) by (nonlinear_arith);
    }
    assert forall|w: int| 0 <= w < n implies #[trigger] by_point(w) == sum(
        n,
        |k: int| cell(k, w),
    ) by {
        let ew = evals[w];
        let term = basis_term(bits(w, v), v, x);
        let col = |k: int| cell(k, w);
        assert forall|k: int| 0 <= k < n implies #[trigger] col(k) == ew * term(k) by {
            let bc = basis_coeff(bits(w, v), v, k);
            let mo = monomial(k, v, x);
            assert((ew * bc) * mo == ew * (bc * mo)) by (nonlinear_arith);
        }
        lemma_sum_scale(n, ew, term, col);
        lemma_basis_value(bits(w, v), v, x);
    }
    lemma_sum_exchange(n, n, cell, exact, by_point);
    // Only the point `i` itself contributes.
    assert forall|w: int| 0 <= w < n && w != i implies #[trigger] by_point(w) == 0 by {
        lemma_indicator_on_hypercube(w, i, v);
        assert(evals[w] * 0 == 0);
    }
    lemma_sum_single(n, i, by_point);
    lemma_indicator_on_hypercube(i, i, v);
    assert(evals[i] * 1 == evals[i]);
    lemma_small_mod(evals[i] as nat, modulus() as nat);
}

} // verus!
