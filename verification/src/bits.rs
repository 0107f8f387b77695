//! The bits of an index, most significant first.
//!
//! Index `i` of a table over `width` Boolean variables stands for the point, or
//! the monomial, whose `j`-th coordinate is bit `j` of `i` counted from the
//! top: variable 0 is the most significant bit.

use vstd::arithmetic::div_mod::*;
use vstd::arithmetic::power2::*;
use vstd::prelude::*;

verus! {

/// Bit `j`, counted from the most significant of `width` bits, of `n`.
pub open spec fn bit(n: int, width: int, j: int) -> int {
    (n / (pow2((width - 1 - j) as nat) as int)) % 2
}

/// The `width` bits of `n`, most significant first.
pub open spec fn bits(n: int, width: int) -> Seq<int> {
    Seq::new(width as nat, |j: int| bit(n, width, j))
}

/// A sequence of machine integers read as mathematical integers.
pub open spec fn as_ints(s: Seq<usize>) -> Seq<int> {
    Seq::new(s.len(), |j: int| s[j] as int)
}

/// Whether every entry of `s` is 0 or 1.
pub open spec fn is_binary(s: Seq<int>) -> bool {
    forall|j: int| 0 <= j < s.len() ==> #[trigger] s[j] == 0 || s[j] == 1
}

/// `2^width` where that fits in a `usize`, and `None` where it does not.
pub fn checked_hypercube_size(width: usize) -> (r: Option<usize>)
    ensures
        match r {
            Some(n) => n == pow2(width as nat),
            None => pow2(width as nat) > usize::MAX,
        },
{
    let mut n: usize = 1;
    let mut k: usize = 0;
    proof {
        lemma2_to64();
    }
    while k < width
        invariant
            k <= width,
            n == pow2(k as nat),
        decreases width - k,
    {
        proof {
            lemma_pow2_unfold((k + 1) as nat);
            if k + 1 < width {
                lemma_pow2_strictly_increases((k + 1) as nat, width as nat);
            }
        }
        if n > usize::MAX / 2 {
            return None;
        }
        n = n * 2;
        k = k + 1;
    }
    Some(n)
}

/// `2^width`, the number of points of the hypercube over `width` variables.
pub fn hypercube_size(width: usize) -> (n: usize)
    requires
        pow2(width as nat) <= usize::MAX,
    ensures
        n == pow2(width as nat),
{
    checked_hypercube_size(width).unwrap()
}

/// The last of `width` bits of `k` is its parity; the bits before it are the
/// bits of `k / 2` among `width - 1`.
pub proof fn lemma_bit_peel(k: int, width: int)
    requires
        k >= 0,
        width >= 1,
    ensures
        bit(k, width, width - 1) == k % 2,
        forall|j: int| 0 <= j < width - 1 ==> bit(k, width, j) == bit(k / 2, width - 1, j),
{
    lemma2_to64();
    assert((width - 1 - (width - 1)) as nat == 0nat);
    assert(k / 1 == k);
    assert forall|j: int| 0 <= j < width - 1 implies bit(k, width, j) == bit(
        k / 2,
        width - 1,
        j,
    ) by {
        let p = pow2((width - 2 - j) as nat) as int;
        lemma_pow2_pos((width - 2 - j) as nat);
        lemma_pow2_unfold((width - 1 - j) as nat);
        lemma_div_denominator(k, 2, p);
    }
}

} // verus!
