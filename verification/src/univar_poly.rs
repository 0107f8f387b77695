//! Dense univariate polynomials over the scalar field: the messages of the
//! sum-check rounds.

use crate::field::{lemma_add_mod, lemma_mul_mod, modulus, Fe};
use crate::sums::{lemma_sum_ext, lemma_sum_scale, lemma_sum_split, sum};
use vstd::arithmetic::power::{lemma_pow0, lemma_pow1, lemma_pow_adds, pow};
use vstd::prelude::*;

verus! {

/// Coefficient `i` of `c`, zero outside the sequence.
pub open spec fn coeff(c: Seq<int>, i: int) -> int {
    if 0 <= i < c.len() {
        c[i]
    } else {
        0
    }
}

/// The value at `x` of the polynomial with coefficients `c`, lowest power
/// first: the sum of `c[i] * x^i`. The empty polynomial is identically zero.
pub open spec fn poly_eval(c: Seq<int>, x: int) -> int {
    sum(c.len() as int, |i: int| c[i] * pow(x, i as nat))
}

/// The coefficients of the sum of two polynomials, reduced modulo `q`.
pub open spec fn poly_add(a: Seq<int>, b: Seq<int>) -> Seq<int> {
    Seq::new(
        if a.len() >= b.len() {
            a.len()
        } else {
            b.len()
        },
        |i: int| (coeff(a, i) + coeff(b, i)) % modulus(),
    )
}

/// Coefficient `k` of the product of two polynomials, before reduction: the
/// sum of `a[i] * b[k - i]`.
pub open spec fn conv(a: Seq<int>, b: Seq<int>, k: int) -> int {
    sum(a.len() as int, |i: int| a[i] * coeff(b, k - i))
}

/// The coefficients of the product of two polynomials, reduced modulo `q`.
/// A product with the empty polynomial is empty.
pub open spec fn poly_mul(a: Seq<int>, b: Seq<int>) -> Seq<int> {
    if a.len() == 0 || b.len() == 0 {
        Seq::empty()
    } else {
        Seq::new((a.len() + b.len() - 1) as nat, |k: int| conv(a, b, k) % modulus())
    }
}

/// Whether the polynomial with coefficients `g` has degree at most `d`: every
/// coefficient above `d` is zero.
pub open spec fn degree_at_most(g: Seq<int>, d: int) -> bool {
    forall|i: int| d < i < g.len() ==> g[i] == 0
}

/// The part of `poly_eval` that Horner's rule has folded once it stands at
/// index `i`: the sum of `c[i + t] * x^t`.
pub open spec fn horner_tail(c: Seq<int>, x: int, i: int) -> int {
    sum(c.len() - i, |t: int| c[i + t] * pow(x, t as nat))
}

/// One step of Horner's rule.
pub proof fn lemma_horner_step(c: Seq<int>, x: int, i: int)
    requires
        0 <= i < c.len(),
    ensures
        horner_tail(c, x, i) == c[i] + x * horner_tail(c, x, i + 1),
{
    let n = c.len() - i - 1;
    let f = |t: int| c[i + t] * pow(x, t as nat);
    let g = |t: int| c[i + 1 + t] * pow(x, t as nat);
    let h = |t: int| f(1 + t);
    lemma_sum_split(1, n, f, h);
    assert(sum(1, f) == sum(0, f) + f(0));
    lemma_pow0(x);
    assert forall|t: int| 0 <= t < n implies #[trigger] h(t) == x * g(t) by {
        lemma_pow1(x);
        lemma_pow_adds(x, 1, t as nat);
        let p = pow(x, t as nat);
        let ci = c[i + 1 + t];
        assert(ci * (x * p) == x * (ci * p)) by (nonlinear_arith);
    }
    lemma_sum_scale(n, x, g, h);
}

/// A univariate polynomial, as its coefficients from the constant term up.
/// High-order zero coefficients are kept as they are: `degree` looks past
/// them.
#[derive(Clone, Debug, PartialEq, Eq)]
pub struct Polynomial {
    pub coeffs: Vec<Fe>,
}

impl View for Polynomial {
    type V = Seq<int>;

    /// The coefficients as integers in `[0, q)`.
    open spec fn view(&self) -> Seq<int> {
        Seq::new(self.coeffs@.len(), |i: int| self.coeffs@[i]@)
    }
}

impl Polynomial {
    /// Every coefficient is a well-formed field element.
    pub open spec fn wf(&self) -> bool {
        forall|i: int| 0 <= i < self.coeffs@.len() ==> (#[trigger] self.coeffs@[i]).wf()
    }

    /// The value of the polynomial at `x`, by Horner's rule.
    pub fn evaluate(&self, x: Fe) -> (r: Fe)
        requires
            self.wf(),
            x.wf(),
        ensures
            r.wf(),
            r@ == poly_eval(self@, x@) % modulus(),
    {
        let n = self.coeffs.len();
        let mut acc = Fe::zero();
        let mut i: usize = n;
        while i > 0
            invariant
                i <= n,
                n == self.coeffs@.len(),
                self.wf(),
                x.wf(),
                acc.wf(),
                acc@ == horner_tail(self@, x@, i as int) % modulus(),
            decreases i,
        {
            i = i - 1;
            let shifted = acc.mul(&x);
            let next = shifted.add(&self.coeffs[i]);
            proof {
                let tail = horner_tail(self@, x@, i + 1);
                lemma_horner_step(self@, x@, i as int);
                lemma_mul_mod(tail, x@);
                lemma_add_mod(tail * x@, self@[i as int]);
                assert(tail * x@ == x@ * tail) by (nonlinear_arith);
            }
            acc = next;
        }
        proof {
            lemma_sum_ext(
                n as int,
                |t: int| self@[0 + t] * pow(x@, t as nat),
                |t: int| self@[t] * pow(x@, t as nat),
            );
        }
        acc
    }

    /// The index-wise sum; as long as the longer of the two.
    pub fn add(&self, other: &Polynomial) -> (r: Polynomial)
        requires
            self.wf(),
            other.wf(),
        ensures
            r.wf(),
            r@ == poly_add(self@, other@),
    {
        let la = self.coeffs.len();
        let lb = other.coeffs.len();
        let n = if la >= lb {
            la
        } else {
            lb
        };
        let mut out: Vec<Fe> = Vec::new();
        let mut i: usize = 0;
        while i < n
            invariant
                i <= n,
                la == self.coeffs@.len(),
                lb == other.coeffs@.len(),
                n == if la >= lb {
                    la
                } else {
                    lb
                },
                self.wf(),
                other.wf(),
                out@.len() == i,
                forall|k: int|
                    0 <= k < i ==> (#[trigger] out@[k]).wf() && out@[k]@ == (coeff(self@, k)
                        + coeff(other@, k)) % modulus(),
            decreases n - i,
        {
            let a = if i < la {
                self.coeffs[i]
            } else {
                Fe::zero()
            };
            let b = if i < lb {
                other.coeffs[i]
            } else {
                Fe::zero()
            };
            out.push(a.add(&b));
            i = i + 1;
        }
        let r = Polynomial { coeffs: out };
        assert(r@ =~= poly_add(self@, other@));
        r
    }

    /// The full convolution. It scales a polynomial when one operand is a
    /// constant, and multiplies two round messages otherwise.
    pub fn mul(&self, other: &Polynomial) -> (r: Polynomial)
        requires
            self.wf(),
            other.wf(),
            self.coeffs@.len() + other.coeffs@.len() <= usize::MAX,
        ensures
            r.wf(),
            r@ == poly_mul(self@, other@),
    {
        let la = self.coeffs.len();
        let lb = other.coeffs.len();
        let mut out: Vec<Fe> = Vec::new();
        if la == 0 || lb == 0 {
            let r = Polynomial { coeffs: out };
            assert(r@ =~= poly_mul(self@, other@));
            return r;
        }
        let n = la + lb - 1;
        let mut k: usize = 0;
        while k < n
            invariant
                k <= n,
                la == self.coeffs@.len(),
                lb == other.coeffs@.len(),
                la > 0,
                lb > 0,
                n == la + lb - 1,
                self.wf(),
                other.wf(),
                out@.len() == k,
                forall|j: int|
                    0 <= j < k ==> (#[trigger] out@[j]).wf() && out@[j]@ == conv(
                        self@,
                        other@,
                        j,
                    ) % modulus(),
            decreases n - k,
        {
            let mut acc = Fe::zero();
            let mut i: usize = 0;
            let ghost term = |i: int| self@[i] * coeff(other@, k - i);
            while i < la
                invariant
                    i <= la,
                    la == self.coeffs@.len(),
                    lb == other.coeffs@.len(),
                    self.wf(),
                    other.wf(),
                    acc.wf(),
                    term == |i: int| self@[i] * coeff(other@, k - i),
                    acc@ == sum(i as int, term) % modulus(),
                decreases la - i,
            {
                if k >= i && k - i < lb {
                    let t = self.coeffs[i].mul(&other.coeffs[k - i]);
                    let next = acc.add(&t);
                    proof {
                        lemma_add_mod(sum(i as int, term), term(i as int));
                    }
                    acc = next;
                } else {
                    proof {
                        assert(term(i as int) == self@[i as int] * 0);
                    }
                }
                i = i + 1;
            }
            out.push(acc);
            k = k + 1;
        }
        let r = Polynomial { coeffs: out };
        assert(r@ =~= poly_mul(self@, other@));
        r
    }

    /// The encoding of the polynomial as a message: the canonical 32 bytes
    /// of each coefficient, from the constant term up.
    pub fn to_bytes(&self) -> (out: Vec<u8>)
        ensures
            out@.len() == 32 * self.coeffs@.len(),
            forall|i: int, j: int|
                0 <= i < self.coeffs@.len() && 0 <= j < 32 ==> out@[32 * i + j]
                    == #[trigger] self.coeffs@[i].to_bytes()@[j],
    {
        let mut out: Vec<u8> = Vec::new();
        let mut i: usize = 0;
        while i < self.coeffs.len()
            invariant
                i <= self.coeffs@.len(),
                out@.len() == 32 * i,
                forall|a: int, b: int|
                    0 <= a < i && 0 <= b < 32 ==> out@[32 * a + b]
                        == #[trigger] self.coeffs@[a].to_bytes()@[b],
            decreases self.coeffs@.len() - i,
        {
            let bytes = self.coeffs[i].to_bytes();
            let mut j: usize = 0;
            while j < 32
                invariant
                    j <= 32,
                    i < self.coeffs@.len(),
                    bytes == self.coeffs@[i as int].to_bytes(),
                    out@.len() == 32 * i + j,
                    forall|a: int, b: int|
                        0 <= a < i && 0 <= b < 32 ==> out@[32 * a + b]
                            == #[trigger] self.coeffs@[a].to_bytes()@[b],
                    forall|b: int| 0 <= b < j ==> out@[32 * i + b] == bytes@[b],
                decreases 32 - j,
            {
                out.push(bytes[j]);
                j = j + 1;
            }
            i = i + 1;
        }
        out
    }

    /// The degree: the index of the highest nonzero coefficient, and 0 for a
    /// polynomial that is identically zero.
    pub fn degree(&self) -> (d: usize)
        requires
            self.wf(),
        ensures
            degree_at_most(self@, d as int),
            d == 0 || (d < self@.len() && self@[d as int] != 0),
    {
        let mut i: usize = self.coeffs.len();
        while i > 0
            invariant
                i <= self.coeffs@.len(),
                self.wf(),
                forall|j: int| i <= j < self@.len() ==> self@[j] == 0,
            decreases i,
        {
            if !self.coeffs[i - 1].is_zero() {
                return i - 1;
            }
            i = i - 1;
        }
        0
    }
}

} // verus!
