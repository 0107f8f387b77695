//! Index helpers shared by interpolation, evaluation and partial evaluation.

use crate::bits::{as_ints, bit, bits, is_binary};
use crate::field::{all_wf, fe_values, lemma_add_mod, modulus, zero_table, Fe};
use crate::or_index::{index_or, lemma_index_or_bound};
use crate::sums::{lemma_sum_zero, sum};
use vstd::arithmetic::div_mod::*;
use vstd::arithmetic::power2::*;
use vstd::prelude::*;

verus! {

/// The `var_num` low bits of `n`, most significant first: the hypercube point
/// that index `n` stands for.
pub fn convert_to_binary(var_num: &usize, n: usize) -> (out: Vec<usize>)
    ensures
        out@.len() == *var_num,
        as_ints(out@) == bits(n as int, *var_num as int),
        is_binary(as_ints(out@)),
{
    let width: usize = *var_num;
    let mut out: Vec<usize> = Vec::new();
    let mut k: usize = 0;
    while k < width
        invariant
            k <= width,
            out@.len() == k,
        decreases width - k,
    {
        out.push(0);
        k = k + 1;
    }
    let mut rest: usize = n;
    let mut done: usize = 0;
    proof {
        lemma2_to64();
    }
    while done < width
        invariant
            done <= width,
            out@.len() == width,
            rest as int == (n as int) / (pow2(done as nat) as int),
            forall|j: int|
                width - done <= j < width ==> #[trigger] out@[j] as int == bit(
                    n as int,
                    width as int,
                    j,
                ),
        decreases width - done,
    {
        let pos: usize = width - 1 - done;
        proof {
            lemma_pow2_pos(done as nat);
            lemma_pow2_unfold((done + 1) as nat);
            lemma_div_denominator(n as int, pow2(done as nat) as int, 2);
        }
        out.set(pos, rest % 2);
        rest = rest / 2;
        done = done + 1;
    }
    assert(as_ints(out@) =~= bits(n as int, width as int));
    out
}

/// The contribution of the pair `(p, q)` to position `k` of an expansion: the
/// product of the two coefficients where `p | q` is `k`, nothing elsewhere.
pub open spec fn or_cell(a: Seq<int>, b: Seq<int>, k: int, p: int) -> spec_fn(int) -> int {
    |q: int|
        if index_or(p, q) == k {
            a[p] * b[q]
        } else {
            0
        }
}

/// The contribution of position `p` of the first table to position `k`.
pub open spec fn or_row(a: Seq<int>, b: Seq<int>, k: int) -> spec_fn(int) -> int {
    |p: int| sum(b.len() as int, or_cell(a, b, k, p))
}

/// Coefficient `k` of the expansion of two tables, before reduction: the sum
/// of `a[p] * b[q]` over the pairs with `p | q == k`.
pub open spec fn or_conv(a: Seq<int>, b: Seq<int>, k: int) -> int {
    sum(a.len() as int, or_row(a, b, k))
}

/// Multiplies two coefficient tables of multilinear polynomials: each pair of
/// nonzero coefficients at `p` and `q` adds its product at `p | q`.
///
/// This is the product of the two polynomials when no variable occurs in
/// both, as for the factors of a basis polynomial.
pub fn expand_factor_for_mpoly(var_num: usize, product: Vec<Fe>, factor: Vec<Fe>) -> (out: Vec<Fe>)
    requires
        product@.len() == pow2(var_num as nat),
        factor@.len() == pow2(var_num as nat),
        all_wf(product@),
        all_wf(factor@),
    ensures
        out@.len() == pow2(var_num as nat),
        all_wf(out@),
        forall|k: int|
            0 <= k < out@.len() ==> (#[trigger] out@[k])@ == or_conv(
                fe_values(product@),
                fe_values(factor@),
                k,
            ) % modulus(),
{
    let n = product.len();
    let ghost a = fe_values(product@);
    let ghost b = fe_values(factor@);
    let mut out = zero_table(n);
    let mut p: usize = 0;
    while p < n
        invariant
            p <= n,
            n == pow2(var_num as nat),
            n == product@.len(),
            n == factor@.len(),
            all_wf(product@),
            all_wf(factor@),
            a == fe_values(product@),
            b == fe_values(factor@),
            out@.len() == n,
            all_wf(out@),
            forall|k: int|
                0 <= k < n ==> (#[trigger] out@[k])@ == sum(p as int, or_row(a, b, k)) % modulus(),
        decreases n - p,
    {
        let x = product[p];
        if !x.is_zero() {
            let mut q: usize = 0;
            while q < n
                invariant
                    q <= n,
                    p < n,
                    n == pow2(var_num as nat),
                    n == product@.len(),
                    n == factor@.len(),
                    all_wf(product@),
                    all_wf(factor@),
                    a == fe_values(product@),
                    b == fe_values(factor@),
                    x == product@[p as int],
                    out@.len() == n,
                    all_wf(out@),
                    forall|k: int|
                        0 <= k < n ==> (#[trigger] out@[k])@ == (sum(p as int, or_row(a, b, k))
                            + sum(q as int, or_cell(a, b, k, p as int))) % modulus(),
                decreases n - q,
            {
                let y = factor[q];
                if !y.is_zero() {
                    proof {
                        lemma_index_or_bound(p as int, q as int, var_num as nat);
                    }
                    let k0: usize = p | q;
                    let t = x.mul(&y);
                    let next = out[k0].add(&t);
                    proof {
                        lemma_add_mod(
                            sum(p as int, or_row(a, b, k0 as int)) + sum(
                                q as int,
                                or_cell(a, b, k0 as int, p as int),
                            ),
                            a[p as int] * b[q as int],
                        );
                    }
                    out.set(k0, next);
                } else {
                    assert(a[p as int] * b[q as int] == 0) by (nonlinear_arith)
                        requires
                            b[q as int] == 0,
                    ;
                }
                q = q + 1;
            }
        } else {
            assert forall|k: int| 0 <= k < n implies #[trigger] or_row(a, b, k)(p as int) == 0 by {
                assert forall|q: int| 0 <= q < n implies #[trigger] or_cell(a, b, k, p as int)(q)
                    == 0 by {
                    assert(a[p as int] * b[q] == 0) by (nonlinear_arith)
                        requires
                            a[p as int] == 0,
                    ;
                }
                lemma_sum_zero(n as int, or_cell(a, b, k, p as int));
            }
        }
        p = p + 1;
    }
    out
}

/// The point `head ++ tail`.
pub fn concat_points(head: &Vec<usize>, tail: &Vec<usize>) -> (out: Vec<usize>)
    ensures
        out@ == head@ + tail@,
        as_ints(out@) == as_ints(head@) + as_ints(tail@),
{
    let mut out: Vec<usize> = Vec::new();
    let mut k: usize = 0;
    while k < head.len()
        invariant
            k <= head@.len(),
            out@ == head@.take(k as int),
        decreases head@.len() - k,
    {
        out.push(head[k]);
        assert(head@.take(k as int).push(head@[k as int]) =~= head@.take(k + 1));
        k = k + 1;
    }
    assert(head@.take(head@.len() as int) =~= head@);
    let mut k: usize = 0;
    while k < tail.len()
        invariant
            k <= tail@.len(),
            out@ == head@ + tail@.take(k as int),
        decreases tail@.len() - k,
    {
        out.push(tail[k]);
        assert((head@ + tail@.take(k as int)).push(tail@[k as int]) =~= head@ + tail@.take(
            k + 1,
        ));
        k = k + 1;
    }
    assert(tail@.take(tail@.len() as int) =~= tail@);
    assert(as_ints(out@) =~= as_ints(head@) + as_ints(tail@));
    out
}

} // verus!
