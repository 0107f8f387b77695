//! Bitwise OR of table indices, and what it does to an index when the other
//! operand is a single bit.

use vstd::arithmetic::power2::{lemma_pow2_pos, lemma_pow2_strictly_increases, pow2, lemma2_to64, lemma2_to64_rest};
use vstd::bits::{lemma_u64_shl_is_mul, lemma_u64_shr_is_div};
use vstd::prelude::*;

verus! {

/// The index whose bits are those set in `p` or in `q`.
pub open spec fn index_or(p: int, q: int) -> int {
    ((p as u64) | (q as u64)) as int
}

proof fn lemma_or_below_shift(p: u64, q: u64, v: u64)
    by (bit_vector)
    requires
        v < 64,
        p < (1u64 << v),
        q < (1u64 << v),
    ensures
        (p | q) < (1u64 << v),
{
}

proof fn lemma_or_with_shift(p: u64, k: u64, s: u64)
    by (bit_vector)
    requires
        s < 64,
    ensures
        (p | 0) == p,
        ((k >> s) & 1) == 0 || ((k >> s) & 1) == 1,
        ((k >> s) & 1) == 0 ==> (p | (1u64 << s)) != k,
        ((k >> s) & 1) == 1 ==> k >= (1u64 << s),
        ((k >> s) & 1) == 1 ==> (((p | (1u64 << s)) == k) <==> (p == k || p + (1u64 << s) == k)),
        ((k >> s) & 1) == (k >> s) % 2,
{
}

/// A power of two that fits in 64 bits has an exponent below 64.
pub proof fn lemma_pow2_fits(v: nat)
    requires
        pow2(v) <= u64::MAX,
    ensures
        v < 64,
{
    if v >= 64 {
        lemma2_to64();
        lemma2_to64_rest();
        if v > 64 {
            lemma_pow2_strictly_increases(64, v);
        }
    }
}

/// The OR of two indices below `2^v` is below `2^v`.
pub proof fn lemma_index_or_bound(p: int, q: int, v: nat)
    requires
        pow2(v) <= u64::MAX,
        0 <= p < pow2(v),
        0 <= q < pow2(v),
    ensures
        0 <= index_or(p, q) < pow2(v),
{
    lemma_pow2_fits(v);
    lemma_u64_shl_is_mul(1, v as u64);
    lemma_or_below_shift(p as u64, q as u64, v as u64);
}

/// OR with zero changes nothing. OR with the single bit `2^s` gives `k`
/// exactly when bit `s` of `k` is set and the other operand is `k` or `k`
/// without that bit.
pub proof fn lemma_index_or_single_bit(p: int, k: int, s: nat)
    requires
        pow2(s) <= u64::MAX,
        0 <= p <= u64::MAX,
        0 <= k <= u64::MAX,
    ensures
        index_or(p, 0) == p,
        (k / (pow2(s) as int)) % 2 == 1 ==> k >= pow2(s),
        index_or(p, pow2(s) as int) == k <==> ((k / (pow2(s) as int)) % 2 == 1 && (p == k || p == k
            - pow2(s))),
{
    lemma_pow2_fits(s);
    lemma_pow2_pos(s);
    lemma_u64_shl_is_mul(1, s as u64);
    lemma_u64_shr_is_div(k as u64, s as u64);
    lemma_or_with_shift(p as u64, k as u64, s as u64);
}

} // verus!
