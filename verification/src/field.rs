//! Elements of the prime field GF(p), p = 2^256 - 2^32 - 977 (the base field of secp256k1).
//!
//! A `FieldElement` holds the canonical representative of its value as four little-endian
//! 64-bit limbs. Its view is that value, an integer in `[0, p)`. The arithmetic itself is
//! done by `ark_secp256k1::Fq`; the wrappers below state what each operation returns.

use ark_ff::{BigInt, BigInteger, Field, PrimeField, UniformRand};
use ark_secp256k1::Fq;
use rand::rngs::OsRng;
use rand_chacha::rand_core::SeedableRng;
use rand_chacha::ChaCha20Rng;
use vstd::arithmetic::div_mod::*;
use vstd::prelude::*;

verus! {

/// The field modulus p = 2^256 - 2^32 - 977.
pub open spec fn modulus() -> int {
    115792089237316195423570985008687907853269984665640564039457584007908834671663int
}

/// Field addition on canonical values.
pub open spec fn fadd(a: int, b: int) -> int {
    (a + b) % modulus()
}

/// Field subtraction on canonical values (the remainder is taken in `[0, p)`).
pub open spec fn fsub(a: int, b: int) -> int {
    (a - b) % modulus()
}

/// Field multiplication on canonical values.
pub open spec fn fmul(a: int, b: int) -> int {
    (a * b) % modulus()
}

/// `w` is a multiplicative inverse of `a` modulo p.
pub open spec fn is_inverse(a: int, w: int) -> bool {
    (a * w) % modulus() == 1
}

/// `a` has a multiplicative inverse modulo p.
pub open spec fn has_inverse(a: int) -> bool {
    exists|w: int| #[trigger] is_inverse(a, w)
}

/// The inverse of `a` in `[0, p)`; meaningful where `has_inverse(a)`.
pub open spec fn finv(a: int) -> int {
    choose|w: int| 0 <= w < modulus() && #[trigger] is_inverse(a, w)
}

/// Field division: `a` times the inverse of `b`.
pub open spec fn fdiv(a: int, b: int) -> int {
    fmul(a, finv(b))
}

/// GF(p) is a field: every nonzero residue has a multiplicative inverse.
/// This holds because p is prime.
pub open spec fn modulus_is_field() -> bool {
    forall|a: int| 0 < a < modulus() ==> #[trigger] has_inverse(a)
}

/// The integer written by four little-endian 64-bit limbs.
pub open spec fn limbs_value(l: [u64; 4]) -> int {
    l[0] as int + 18446744073709551616int * l[1] as int + 340282366920938463463374607431768211456int
        * l[2] as int + 6277101735386680763835789423207666416102355444464034512896int
        * l[3] as int
}

/// The integer written by big-endian bytes.
pub open spec fn be_to_nat(s: Seq<u8>) -> int
    decreases s.len(),
{
    if s.len() == 0 {
        0
    } else {
        be_to_nat(s.drop_last()) * 256 + s.last() as int
    }
}

/// The last `len` base-256 digits of `v`, most significant first.
pub open spec fn nat_to_be(v: int, len: nat) -> Seq<u8>
    decreases len,
{
    if len == 0 {
        Seq::empty()
    } else {
        nat_to_be(v / 256, (len - 1) as nat).push((v % 256) as u8)
    }
}

/// An element of GF(p), held in canonical form.
#[derive(Clone, Copy, Debug, PartialEq, Eq)]
pub struct FieldElement {
    limbs: [u64; 4],
}

impl View for FieldElement {
    type V = int;

    closed spec fn view(&self) -> int {
        limbs_value(self.limbs) % modulus()
    }
}

/// Every field element's value lies in `[0, p)`.
pub proof fn lemma_field_element_range(x: FieldElement)
    ensures
        0 <= x@ < modulus(),
{
    lemma_mod_bound(limbs_value(x.limbs), modulus());
}

// Wrappers over `ark_secp256k1::Fq`. Each converts its arguments from canonical limbs
// (always below p, so `from_bigint` succeeds), performs one field operation, and converts
// the canonical result back.

/// `Fq` addition: the sum of the two values modulo p.
#[verifier::external_body]
fn ark_add(a: &FieldElement, b: &FieldElement) -> (r: FieldElement)
    ensures
        r@ == fadd(a@, b@),
{
    let x = Fq::from_bigint(BigInt::new(a.limbs)).unwrap();
    let y = Fq::from_bigint(BigInt::new(b.limbs)).unwrap();
    FieldElement { limbs: (x + y).into_bigint().0 }
}

/// `Fq` subtraction: the difference of the two values modulo p.
#[verifier::external_body]
fn ark_sub(a: &FieldElement, b: &FieldElement) -> (r: FieldElement)
    ensures
        r@ == fsub(a@, b@),
{
    let x = Fq::from_bigint(BigInt::new(a.limbs)).unwrap();
    let y = Fq::from_bigint(BigInt::new(b.limbs)).unwrap();
    FieldElement { limbs: (x - y).into_bigint().0 }
}

/// `Fq` multiplication: the product of the two values modulo p.
#[verifier::external_body]
fn ark_mul(a: &FieldElement, b: &FieldElement) -> (r: FieldElement)
    ensures
        r@ == fmul(a@, b@),
{
    let x = Fq::from_bigint(BigInt::new(a.limbs)).unwrap();
    let y = Fq::from_bigint(BigInt::new(b.limbs)).unwrap();
    FieldElement { limbs: (x * y).into_bigint().0 }
}

/// `Field::inverse` of `Fq`: `None` exactly for zero, otherwise an inverse of the value.
#[verifier::external_body]
fn ark_inverse(a: &FieldElement) -> (r: Option<FieldElement>)
    ensures
        r is Some <==> a@ != 0,
        r matches Some(w) ==> is_inverse(a@, w@),
{
    let x = Fq::from_bigint(BigInt::new(a.limbs)).unwrap();
    match x.inverse() {
        Some(w) => Some(FieldElement { limbs: w.into_bigint().0 }),
        None => None,
    }
}

/// `Fq::from_be_bytes_mod_order`: the big-endian integer of the bytes, reduced modulo p.
#[verifier::external_body]
fn ark_from_be_bytes_mod_order(bytes: &[u8]) -> (r: FieldElement)
    ensures
        r@ == be_to_nat(bytes@) % modulus(),
{
    FieldElement { limbs: Fq::from_be_bytes_mod_order(bytes).into_bigint().0 }
}

/// `BigInt::to_bytes_be` of `Fq::into_bigint`: the 32 big-endian bytes of the value.
#[verifier::external_body]
fn ark_to_bytes_be(a: &FieldElement) -> (r: Vec<u8>)
    ensures
        r@ == nat_to_be(a@, 32),
{
    Fq::from_bigint(BigInt::new(a.limbs)).unwrap().into_bigint().to_bytes_be()
}

/// The ChaCha20 random number generator of `rand_chacha`.
#[verifier::external_type_specification]
#[verifier::external_body]
pub struct ExChaCha20Rng(ChaCha20Rng);

/// The value of the first uniformly random `Fq` element (`UniformRand::rand`) drawn from a
/// ChaCha20 generator seeded with the given 32 bytes.
pub uninterp spec fn chacha_field_sample(seed: Seq<u8>) -> int;

/// `Fq::rand` on a freshly seeded `ChaCha20Rng`: a deterministic function of the seed.
#[verifier::external_body]
pub(crate) fn ark_rand_from_seed(seed: [u8; 32]) -> (r: FieldElement)
    ensures
        r@ == chacha_field_sample(seed@),
{
    let mut rng = ChaCha20Rng::from_seed(seed);
    FieldElement { limbs: Fq::rand(&mut rng).into_bigint().0 }
}

/// `Fq::rand` on the given generator; the value depends on the generator's hidden state.
#[verifier::external_body]
pub(crate) fn ark_rand(rng: &mut ChaCha20Rng) -> (r: FieldElement) {
    FieldElement { limbs: Fq::rand(rng).into_bigint().0 }
}

/// `Fq::rand` on the operating system's generator `OsRng`; nothing is known of the value.
#[verifier::external_body]
pub(crate) fn ark_rand_os() -> (r: FieldElement) {
    FieldElement { limbs: Fq::rand(&mut OsRng).into_bigint().0 }
}

/// If `a` has an inverse, `finv(a)` is one, and it lies in `[0, p)`.
pub proof fn lemma_finv(a: int)
    requires
        has_inverse(a),
    ensures
        is_inverse(a, finv(a)),
        0 <= finv(a) < modulus(),
{
    let w = choose|w: int| #[trigger] is_inverse(a, w);
    let w0 = w % modulus();
    lemma_mod_bound(w, modulus());
    lemma_mul_mod_noop_right(a, w, modulus());
    assert(is_inverse(a, w0));
}

/// Inverses are unique modulo p: multiplying by any inverse gives the same residue.
pub proof fn lemma_inverse_unique(a: int, w1: int, w2: int, x: int)
    requires
        is_inverse(a, w1),
        is_inverse(a, w2),
    ensures
        fmul(x, w1) == fmul(x, w2),
{
    let p = modulus();
    // x * w1 = x * w1 * (a * w2) = (x * w2) * (a * w1) = x * w2  (mod p)
    lemma_mul_mod_noop_right(x * w1, a * w2, p);
    lemma_mul_mod_noop_right(x * w2, a * w1, p);
    assert((x * w1) * (a * w2) == (x * w2) * (a * w1)) by (nonlinear_arith);
    assert((x * w1) * 1 == x * w1);
    assert((x * w2) * 1 == x * w2);
}

/// Two canonical values differ exactly when their field difference is nonzero.
pub proof fn lemma_fsub_zero(a: int, b: int)
    requires
        0 <= a < modulus(),
        0 <= b < modulus(),
    ensures
        (fsub(a, b) == 0) == (a == b),
{
    if a >= b {
        lemma_small_mod((a - b) as nat, modulus() as nat);
    } else {
        lemma_mod_add_multiples_vanish(a - b, modulus());
        lemma_small_mod((a - b + modulus()) as nat, modulus() as nat);
    }
}

/// One is the multiplicative identity on canonical values.
pub proof fn lemma_fmul_one(a: int)
    requires
        0 <= a < modulus(),
    ensures
        fmul(1, a) == a,
        fmul(a, 1) == a,
{
    lemma_small_mod(a as nat, modulus() as nat);
}

impl FieldElement {
    #[verifier::type_invariant]
    spec fn canonical(self) -> bool {
        limbs_value(self.limbs) < modulus()
    }

    /// The value held by canonical limbs.
    proof fn lemma_value(self)
        requires
            self.canonical(),
        ensures
            self@ == limbs_value(self.limbs),
    {
        lemma_small_mod(limbs_value(self.limbs) as nat, modulus() as nat);
    }

    /// The additive identity.
    pub fn zero() -> (r: Self)
        ensures
            r@ == 0,
    {
        let r = FieldElement { limbs: [0, 0, 0, 0] };
        proof {
            r.lemma_value();
        }
        r
    }

    /// The multiplicative identity.
    pub fn one() -> (r: Self)
        ensures
            r@ == 1,
    {
        let r = FieldElement { limbs: [1, 0, 0, 0] };
        proof {
            r.lemma_value();
        }
        r
    }

    /// The element whose value is `v` (every `u64` is below p).
    pub fn from_u64(v: u64) -> (r: Self)
        ensures
            r@ == v as int,
    {
        let r = FieldElement { limbs: [v, 0, 0, 0] };
        proof {
            r.lemma_value();
        }
        r
    }

    /// Field addition.
    pub fn add(&self, other: &Self) -> (r: Self)
        ensures
            r@ == fadd(self@, other@),
    {
        ark_add(self, other)
    }

    /// Field subtraction.
    pub fn sub(&self, other: &Self) -> (r: Self)
        ensures
            r@ == fsub(self@, other@),
    {
        ark_sub(self, other)
    }

    /// Field multiplication.
    pub fn mul(&self, other: &Self) -> (r: Self)
        ensures
            r@ == fmul(self@, other@),
    {
        ark_mul(self, other)
    }

    /// The multiplicative inverse; `None` for zero.
    pub fn inverse(&self) -> (r: Option<Self>)
        ensures
            r is Some <==> self@ != 0,
            r matches Some(w) ==> is_inverse(self@, w@) && w@ == finv(self@),
    {
        let r = ark_inverse(self);
        proof {
            if let Some(w) = r {
                lemma_finv(self@);
                lemma_field_element_range(w);
                lemma_inverse_unique(self@, w@, finv(self@), 1);
                lemma_small_mod(w@ as nat, modulus() as nat);
                lemma_small_mod(finv(self@) as nat, modulus() as nat);
            }
        }
        r
    }

    /// Field division: multiplication by the inverse of the divisor, which must be nonzero.
    pub fn div(&self, other: &Self) -> (r: Self)
        requires
            other@ != 0,
        ensures
            has_inverse(other@),
            r@ == fdiv(self@, other@),
    {
        let w = other.inverse().unwrap();
        self.mul(&w)
    }

    /// Whether the value is zero.
    pub fn is_zero(&self) -> (r: bool)
        ensures
            r == (self@ == 0),
    {
        proof {
            use_type_invariant(self);
            self.lemma_value();
        }
        self.limbs[0] == 0 && self.limbs[1] == 0 && self.limbs[2] == 0 && self.limbs[3] == 0
    }

    /// Whether two elements are equal.
    pub fn equals(&self, other: &Self) -> (r: bool)
        ensures
            r == (self@ == other@),
    {
        proof {
            use_type_invariant(self);
            use_type_invariant(other);
            self.lemma_value();
            other.lemma_value();
        }
        self.limbs[0] == other.limbs[0] && self.limbs[1] == other.limbs[1] && self.limbs[2]
            == other.limbs[2] && self.limbs[3] == other.limbs[3]
    }

    /// Reads big-endian bytes as an integer and reduces it modulo p.
    pub fn from_be_bytes_mod_order(bytes: &[u8]) -> (r: Self)
        ensures
            r@ == be_to_nat(bytes@) % modulus(),
    {
        ark_from_be_bytes_mod_order(bytes)
    }

    /// The 32 big-endian bytes of the value.
    pub fn to_bytes_be(&self) -> (r: Vec<u8>)
        ensures
            r@ == nat_to_be(self@, 32),
    {
        ark_to_bytes_be(self)
    }
}

} // verus!
