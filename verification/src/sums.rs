//! Finite sums of integer-valued functions, and the facts about them that the
//! polynomial proofs use.

use vstd::prelude::*;

verus! {

/// `f(0) + f(1) + ... + f(n - 1)`; zero when `n <= 0`.
pub open spec fn sum(n: int, f: spec_fn(int) -> int) -> int
    decreases n,
{
    if n <= 0 {
        0
    } else {
        sum(n - 1, f) + f(n - 1)
    }
}

/// Sums of functions that agree below `n` are equal.
pub proof fn lemma_sum_ext(n: int, f: spec_fn(int) -> int, g: spec_fn(int) -> int)
    requires
        forall|i: int| 0 <= i < n ==> #[trigger] f(i) == g(i),
    ensures
        sum(n, f) == sum(n, g),
    decreases n,
{
    if n > 0 {
        lemma_sum_ext(n - 1, f, g);
    }
}

/// A sum of zeros is zero.
pub proof fn lemma_sum_zero(n: int, f: spec_fn(int) -> int)
    requires
        forall|i: int| 0 <= i < n ==> #[trigger] f(i) == 0,
    ensures
        sum(n, f) == 0,
    decreases n,
{
    if n > 0 {
        lemma_sum_zero(n - 1, f);
    }
}

/// The sum of `f + g` is the sum of `f` plus the sum of `g`.
pub proof fn lemma_sum_add(
    n: int,
    f: spec_fn(int) -> int,
    g: spec_fn(int) -> int,
    h: spec_fn(int) -> int,
)
    requires
        forall|i: int| 0 <= i < n ==> #[trigger] h(i) == f(i) + g(i),
    ensures
        sum(n, h) == sum(n, f) + sum(n, g),
    decreases n,
{
    if n > 0 {
        lemma_sum_add(n - 1, f, g, h);
    }
}

/// The sum of `f - g` is the sum of `f` minus the sum of `g`.
pub proof fn lemma_sum_sub(
    n: int,
    f: spec_fn(int) -> int,
    g: spec_fn(int) -> int,
    h: spec_fn(int) -> int,
)
    requires
        forall|i: int| 0 <= i < n ==> #[trigger] h(i) == f(i) - g(i),
    ensures
        sum(n, h) == sum(n, f) - sum(n, g),
    decreases n,
{
    if n > 0 {
        lemma_sum_sub(n - 1, f, g, h);
    }
}

/// A constant factor moves out of a sum.
pub proof fn lemma_sum_scale(n: int, c: int, f: spec_fn(int) -> int, h: spec_fn(int) -> int)
    requires
        forall|i: int| 0 <= i < n ==> #[trigger] h(i) == c * f(i),
    ensures
        sum(n, h) == c * sum(n, f),
    decreases n,
{
    if n > 0 {
        lemma_sum_scale(n - 1, c, f, h);
        assert(c * (sum(n - 1, f) + f(n - 1)) == c * sum(n - 1, f) + c * f(n - 1))
            by (nonlinear_arith);
    } else {
        assert(c * 0 == 0);
    }
}

/// A sum over `[0, a + b)` is the sum over `[0, a)` plus the sum over the next
/// `b` indices.
pub proof fn lemma_sum_split(a: int, b: int, f: spec_fn(int) -> int, g: spec_fn(int) -> int)
    requires
        0 <= a,
        0 <= b,
        forall|i: int| 0 <= i < b ==> #[trigger] g(i) == f(a + i),
    ensures
        sum(a + b, f) == sum(a, f) + sum(b, g),
    decreases b,
{
    if b > 0 {
        lemma_sum_split(a, b - 1, f, g);
    }
}

/// A sum whose terms vanish everywhere but at `a` is the term at `a`.
pub proof fn lemma_sum_single(n: int, a: int, f: spec_fn(int) -> int)
    requires
        0 <= a < n,
        forall|i: int| 0 <= i < n && i != a ==> #[trigger] f(i) == 0,
    ensures
        sum(n, f) == f(a),
    decreases n,
{
    if n - 1 == a {
        lemma_sum_zero(n - 1, f);
    } else {
        lemma_sum_single(n - 1, a, f);
    }
}

/// Sums whose terms are congruent modulo `q` are congruent modulo `q`.
pub proof fn lemma_sum_cong(n: int, q: int, f: spec_fn(int) -> int, g: spec_fn(int) -> int)
    requires
        q > 0,
        forall|i: int| 0 <= i < n ==> #[trigger] f(i) % q == g(i) % q,
    ensures
        sum(n, f) % q == sum(n, g) % q,
    decreases n,
{
    if n > 0 {
        lemma_sum_cong(n - 1, q, f, g);
        vstd::arithmetic::div_mod::lemma_add_mod_noop(sum(n - 1, f), f(n - 1), q);
        vstd::arithmetic::div_mod::lemma_add_mod_noop(sum(n - 1, g), g(n - 1), q);
    }
}

/// The order of two nested sums can be exchanged.
pub proof fn lemma_sum_exchange(
    n: int,
    m: int,
    f: spec_fn(int, int) -> int,
    rows: spec_fn(int) -> int,
    cols: spec_fn(int) -> int,
)
    requires
        forall|i: int| 0 <= i < n ==> #[trigger] rows(i) == sum(m, |j: int| f(i, j)),
        forall|j: int| 0 <= j < m ==> #[trigger] cols(j) == sum(n, |i: int| f(i, j)),
    ensures
        sum(n, rows) == sum(m, cols),
    decreases n,
{
    if n <= 0 {
        lemma_sum_zero(m, cols);
    } else {
        let last = |j: int| f(n - 1, j);
        let cols_before = |j: int| sum(n - 1, |i: int| f(i, j));
        lemma_sum_exchange(n - 1, m, f, rows, cols_before);
        assert forall|j: int| 0 <= j < m implies #[trigger] cols(j) == cols_before(j) + last(j) by {
            let col = |i: int| f(i, j);
            assert(sum(n, col) == sum(n - 1, col) + col(n - 1));
        }
        lemma_sum_add(m, cols_before, last, cols);
        assert(rows(n - 1) == sum(m, last)) by {
            lemma_sum_ext(m, |j: int| f(n - 1, j), last);
        }
    }
}

/// `f(0) * f(1) * ... * f(n - 1)`; one when `n <= 0`.
pub open spec fn prod(n: int, f: spec_fn(int) -> int) -> int
    decreases n,
{
    if n <= 0 {
        1
    } else {
        prod(n - 1, f) * f(n - 1)
    }
}

/// Products of functions that agree below `n` are equal.
pub proof fn lemma_prod_ext(n: int, f: spec_fn(int) -> int, g: spec_fn(int) -> int)
    requires
        forall|i: int| 0 <= i < n ==> #[trigger] f(i) == g(i),
    ensures
        prod(n, f) == prod(n, g),
    decreases n,
{
    if n > 0 {
        lemma_prod_ext(n - 1, f, g);
    }
}

/// A product with a zero factor is zero.
pub proof fn lemma_prod_zero_factor(n: int, f: spec_fn(int) -> int, j: int)
    requires
        0 <= j < n,
        f(j) == 0,
    ensures
        prod(n, f) == 0,
    decreases n,
{
    if j < n - 1 {
        lemma_prod_zero_factor(n - 1, f, j);
        assert(0 * f(n - 1) == 0);
    } else {
        assert(prod(n - 1, f) * 0 == 0);
    }
}

/// Scaling one factor of a product scales the product.
pub proof fn lemma_prod_scale_factor(
    n: int,
    f: spec_fn(int) -> int,
    g: spec_fn(int) -> int,
    j: int,
    r: int,
)
    requires
        0 <= j < n,
        g(j) == r * f(j),
        forall|k: int| 0 <= k < n && k != j ==> #[trigger] g(k) == f(k),
    ensures
        prod(n, g) == r * prod(n, f),
    decreases n,
{
    let before_f = prod(n - 1, f);
    let last_f = f(n - 1);
    if j < n - 1 {
        lemma_prod_scale_factor(n - 1, f, g, j, r);
        assert((r * before_f) * last_f == r * (before_f * last_f)) by (nonlinear_arith);
    } else {
        lemma_prod_ext(n - 1, f, g);
        assert(before_f * (r * last_f) == r * (before_f * last_f)) by (nonlinear_arith);
    }
}

/// A sum of terms that are affine in `r` is affine in `r`.
pub proof fn lemma_sum_affine(
    n: int,
    r: int,
    at_zero: spec_fn(int) -> int,
    at_one: spec_fn(int) -> int,
    at_r: spec_fn(int) -> int,
)
    requires
        forall|i: int|
            0 <= i < n ==> #[trigger] at_r(i) == at_zero(i) + r * (at_one(i) - at_zero(i)),
    ensures
        sum(n, at_r) == sum(n, at_zero) + r * (sum(n, at_one) - sum(n, at_zero)),
    decreases n,
{
    if n > 0 {
        lemma_sum_affine(n - 1, r, at_zero, at_one, at_r);
        let s0 = sum(n - 1, at_zero);
        let s1 = sum(n - 1, at_one);
        let a = at_zero(n - 1);
        let b = at_one(n - 1);
        assert((s0 + r * (s1 - s0)) + (a + r * (b - a)) == (s0 + a) + r * ((s1 + b) - (s0 + a)))
            by (nonlinear_arith);
    } else {
        assert(r * (0 - 0) == 0);
    }
}

/// A sum whose terms vanish everywhere but at `a` and `b` is the sum of those
/// two terms.
pub proof fn lemma_sum_pair(n: int, a: int, b: int, f: spec_fn(int) -> int)
    requires
        0 <= a < b < n,
        forall|i: int| 0 <= i < n && i != a && i != b ==> #[trigger] f(i) == 0,
    ensures
        sum(n, f) == f(a) + f(b),
    decreases n,
{
    if n - 1 == b {
        lemma_sum_single(n - 1, a, f);
    } else {
        lemma_sum_pair(n - 1, a, b, f);
    }
}

/// A sum over `[0, 2m)` taken two neighbours at a time.
pub proof fn lemma_sum_pairs(m: int, f: spec_fn(int) -> int, g: spec_fn(int) -> int)
    requires
        forall|i: int| 0 <= i < m ==> #[trigger] g(i) == f(2 * i) + f(2 * i + 1),
    ensures
        sum(2 * m, f) == sum(m, g),
    decreases m,
{
    if m > 0 {
        lemma_sum_pairs(m - 1, f, g);
        assert(sum(2 * m, f) == sum(2 * m - 1, f) + f(2 * m - 1));
        assert(sum(2 * m - 1, f) == sum(2 * m - 2, f) + f(2 * m - 2));
        assert(g(m - 1) == f(2 * (m - 1)) + f(2 * (m - 1) + 1));
    }
}

} // verus!
