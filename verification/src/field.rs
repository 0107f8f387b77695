//! Elements of the BLS12-381 scalar field, held in canonical byte form.
//!
//! The arithmetic itself is done by the `bls12_381` crate. Each operation is
//! reached through one small trusted function whose contract states the result
//! as an integer modulo [`modulus`]; everything else in the crate is proved
//! from those contracts.

use bls12_381::Scalar;
use ff::Field;
use rand_core::OsRng;
use vstd::arithmetic::div_mod::{lemma_add_mod_noop, lemma_mul_mod_noop, lemma_mod_twice};
use vstd::prelude::*;

verus! {

/// The order `q` of the scalar field.
pub open spec fn modulus() -> int {
    0x73eda753299d7d483339d80809a1d80553bda402fffe5bfeffffffff00000001int
}

/// The natural number that a little-endian byte string denotes.
pub open spec fn le_value(bytes: Seq<u8>) -> int
    decreases bytes.len(),
{
    if bytes.len() == 0 {
        0
    } else {
        bytes[0] as int + 256 * le_value(bytes.skip(1))
    }
}

/// Reducing the operands of a sum first does not change the sum modulo `q`.
pub proof fn lemma_add_mod(a: int, b: int)
    ensures
        ((a % modulus()) + (b % modulus())) % modulus() == (a + b) % modulus(),
        ((a % modulus()) + b) % modulus() == (a + b) % modulus(),
        (a + (b % modulus())) % modulus() == (a + b) % modulus(),
{
    lemma_add_mod_noop(a, b, modulus());
    lemma_add_mod_noop(a % modulus(), b, modulus());
    lemma_add_mod_noop(a, b % modulus(), modulus());
    lemma_mod_twice(a, modulus());
    lemma_mod_twice(b, modulus());
}

/// Reducing the operands of a product first does not change the product
/// modulo `q`.
pub proof fn lemma_mul_mod(a: int, b: int)
    ensures
        ((a % modulus()) * (b % modulus())) % modulus() == (a * b) % modulus(),
        ((a % modulus()) * b) % modulus() == (a * b) % modulus(),
        (a * (b % modulus())) % modulus() == (a * b) % modulus(),
{
    lemma_mul_mod_noop(a, b, modulus());
    lemma_mul_mod_noop(a % modulus(), b, modulus());
    lemma_mul_mod_noop(a, b % modulus(), modulus());
    lemma_mod_twice(a, modulus());
    lemma_mod_twice(b, modulus());
}

/// A field element: the 32 little-endian bytes of its canonical
/// representative in `[0, q)`.
#[derive(Clone, Copy, Debug, PartialEq, Eq)]
pub struct Fe {
    bytes: [u8; 32],
}

impl View for Fe {
    type V = int;

    /// The canonical representative as an integer.
    closed spec fn view(&self) -> int {
        le_value(self.bytes@)
    }
}

/// Trusted: `Scalar::zero`, read back with `Scalar::to_bytes`. The additive
/// identity has canonical representative 0.
#[verifier::external_body]
fn scalar_zero() -> (r: Fe)
    ensures
        r.wf(),
        r@ == 0,
{
    Fe { bytes: Scalar::zero().to_bytes() }
}

/// Trusted: `Scalar::one`, read back with `Scalar::to_bytes`. The
/// multiplicative identity has canonical representative 1.
#[verifier::external_body]
fn scalar_one() -> (r: Fe)
    ensures
        r.wf(),
        r@ == 1,
{
    Fe { bytes: Scalar::one().to_bytes() }
}

/// Trusted: `<Scalar as From<u64>>::from`. Every `u64` is below `q`, so the
/// element's canonical representative is the number itself.
#[verifier::external_body]
fn scalar_from_u64(n: u64) -> (r: Fe)
    ensures
        r.wf(),
        r@ == n,
{
    Fe { bytes: Scalar::from(n).to_bytes() }
}

/// Trusted: `Scalar::add` on the elements that `Scalar::from_bytes` gives for
/// two canonical encodings: field addition, i.e. the sum reduced modulo `q`.
#[verifier::external_body]
fn scalar_add(a: &Fe, b: &Fe) -> (r: Fe)
    requires
        a.wf(),
        b.wf(),
    ensures
        r.wf(),
        r@ == (a@ + b@) % modulus(),
{
    let x = Scalar::from_bytes(&a.bytes).unwrap();
    let y = Scalar::from_bytes(&b.bytes).unwrap();
    Fe { bytes: x.add(&y).to_bytes() }
}

/// Trusted: `Scalar::mul` on the elements that `Scalar::from_bytes` gives for
/// two canonical encodings: field multiplication, i.e. the product reduced
/// modulo `q`.
#[verifier::external_body]
fn scalar_mul(a: &Fe, b: &Fe) -> (r: Fe)
    requires
        a.wf(),
        b.wf(),
    ensures
        r.wf(),
        r@ == (a@ * b@) % modulus(),
{
    let x = Scalar::from_bytes(&a.bytes).unwrap();
    let y = Scalar::from_bytes(&b.bytes).unwrap();
    Fe { bytes: x.mul(&y).to_bytes() }
}

/// Trusted: `Scalar::neg`: the additive inverse, `q - a` for a nonzero `a`
/// and 0 for 0.
#[verifier::external_body]
fn scalar_neg(a: &Fe) -> (r: Fe)
    requires
        a.wf(),
    ensures
        r.wf(),
        r@ == (modulus() - a@) % modulus(),
{
    Fe { bytes: Scalar::from_bytes(&a.bytes).unwrap().neg().to_bytes() }
}

/// Trusted: `<Scalar as PartialEq>::eq`: two elements are equal exactly when
/// their canonical representatives are.
#[verifier::external_body]
fn scalar_eq(a: &Fe, b: &Fe) -> (r: bool)
    requires
        a.wf(),
        b.wf(),
    ensures
        r == (a@ == b@),
{
    Scalar::from_bytes(&a.bytes).unwrap() == Scalar::from_bytes(&b.bytes).unwrap()
}

/// Trusted: `Scalar::from_bytes`, which takes exactly the canonical
/// encodings, those of a number below `q`; the element is read back with
/// `Scalar::to_bytes`, which gives the canonical encoding again.
#[verifier::external_body]
fn scalar_from_bytes(bytes: &[u8; 32]) -> (r: Option<Fe>)
    ensures
        r is Some <==> le_value(bytes@) < modulus(),
        r is Some ==> r->0.wf() && r->0@ == le_value(bytes@),
{
    match Option::<Scalar>::from(Scalar::from_bytes(bytes)) {
        Some(s) => Some(Fe { bytes: s.to_bytes() }),
        None => None,
    }
}

/// Trusted: `<Scalar as ff::Field>::random` with the operating system's
/// generator. Nothing is known of the element but that it is one.
#[verifier::external_body]
fn scalar_random() -> (r: Fe)
    ensures
        r.wf(),
{
    Fe { bytes: Scalar::random(OsRng).to_bytes() }
}

impl Fe {
    /// A value is well formed when its bytes encode a number below `q`.
    /// Every constructor gives such a value and every operation keeps it.
    pub open spec fn wf(&self) -> bool {
        0 <= self@ < modulus()
    }

    /// The additive identity.
    pub fn zero() -> (r: Fe)
        ensures
            r.wf(),
            r@ == 0,
    {
        scalar_zero()
    }

    /// The multiplicative identity.
    pub fn one() -> (r: Fe)
        ensures
            r.wf(),
            r@ == 1,
    {
        scalar_one()
    }

    /// The element whose representative is `n`.
    pub fn from_u64(n: u64) -> (r: Fe)
        ensures
            r.wf(),
            r@ == n,
    {
        scalar_from_u64(n)
    }

    /// The element with the canonical encoding `bytes`, if `bytes` is one.
    pub fn from_bytes(bytes: &[u8; 32]) -> (r: Option<Fe>)
        ensures
            r is Some <==> le_value(bytes@) < modulus(),
            r is Some ==> r->0.wf() && r->0@ == le_value(bytes@),
    {
        scalar_from_bytes(bytes)
    }

    /// A uniformly sampled element.
    pub fn random() -> (r: Fe)
        ensures
            r.wf(),
    {
        scalar_random()
    }

    /// Field addition.
    pub fn add(&self, other: &Fe) -> (r: Fe)
        requires
            self.wf(),
            other.wf(),
        ensures
            r.wf(),
            r@ == (self@ + other@) % modulus(),
    {
        scalar_add(self, other)
    }

    /// Field multiplication.
    pub fn mul(&self, other: &Fe) -> (r: Fe)
        requires
            self.wf(),
            other.wf(),
        ensures
            r.wf(),
            r@ == (self@ * other@) % modulus(),
    {
        scalar_mul(self, other)
    }

    /// The additive inverse.
    pub fn neg(&self) -> (r: Fe)
        requires
            self.wf(),
        ensures
            r.wf(),
            r@ == (modulus() - self@) % modulus(),
    {
        scalar_neg(self)
    }

    /// Whether two elements are the same element of the field.
    pub fn equals(&self, other: &Fe) -> (r: bool)
        requires
            self.wf(),
            other.wf(),
        ensures
            r == (self@ == other@),
    {
        scalar_eq(self, other)
    }

    /// Whether this is the additive identity.
    pub fn is_zero(&self) -> (r: bool)
        requires
            self.wf(),
        ensures
            r == (self@ == 0),
    {
        let z = scalar_zero();
        scalar_eq(self, &z)
    }

    /// The canonical little-endian encoding, as a specification.
    pub closed spec fn spec_to_bytes(&self) -> [u8; 32] {
        self.bytes
    }

    /// The canonical little-endian encoding.
    #[verifier::when_used_as_spec(spec_to_bytes)]
    pub fn to_bytes(&self) -> (r: [u8; 32])
        ensures
            r == self.spec_to_bytes(),
            le_value(r@) == self@,
    {
        self.bytes
    }
}

/// The integers that a vector of field elements stands for.
pub open spec fn fe_values(s: Seq<Fe>) -> Seq<int> {
    Seq::new(s.len(), |j: int| s[j]@)
}

/// Whether every element of `s` is well formed.
pub open spec fn all_wf(s: Seq<Fe>) -> bool {
    forall|j: int| 0 <= j < s.len() ==> (#[trigger] s[j]).wf()
}

/// A table of `n` zeros.
pub fn zero_table(n: usize) -> (out: Vec<Fe>)
    ensures
        out@.len() == n,
        all_wf(out@),
        forall|k: int| 0 <= k < n ==> (#[trigger] out@[k])@ == 0,
{
    let zero = Fe::zero();
    let mut out: Vec<Fe> = Vec::new();
    let mut k: usize = 0;
    while k < n
        invariant
            k <= n,
            zero.wf(),
            zero@ == 0,
            out@.len() == k,
            all_wf(out@),
            forall|t: int| 0 <= t < k ==> (#[trigger] out@[t])@ == 0,
        decreases n - k,
    {
        out.push(zero);
        k = k + 1;
    }
    out
}

} // verus!
