//! The two-party transferable designated-verifier signature scheme.
//!
//! Keys, nonces, receipts and per-message keys are derived with HKDF-SHA-256, HMAC-SHA-256
//! and SHA-256, reduced into GF(p). A signature holds five field elements; it verifies when
//! the two verification shares at the public points `w0`, `w1` interpolate to zero.

use crate::field::{
    ark_rand_from_seed, ark_rand_os, be_to_nat, chacha_field_sample, fadd, fdiv, fmul,
    fsub, has_inverse, lemma_field_element_range, lemma_fmul_one, lemma_fsub_zero, modulus,
    nat_to_be, FieldElement,
};
use crate::hashing::{
    hex_decode, hex_decoded, hkdf_sha256_expand, hkdf_sha256_okm, hmac_sha256,
    hmac_sha256_tag, is_hex, sha256, sha256_digest,
};
use crate::shamir::{interpolate_at_zero, poly_eval, reconstruct, split_with_coefficients, Share};
use crate::algebra::{lemma_canonical, lemma_cong_mod};
use crate::binding::lemma_receipt_binding;
use crate::correctness::{
    lemma_forgery_accepted, lemma_honest_sigma_4_nonzero, lemma_honest_signature_accepted,
};
use crate::lagrange::{
    canonical_points, denominators_invertible, evaluations, lagrange_terms,
    lemma_interpolate_fsum, lemma_interpolation, lemma_poly_eval_zero,
};
use vstd::prelude::*;
use vstd::slice::slice_subrange;
use vstd::string::StringSliceAdditionalSpecFns;

verus! {

/// The public interpolation points of a signer.
#[derive(Clone, Copy, Debug, PartialEq, Eq)]
pub struct PublicKey {
    pub w0: FieldElement,
    pub w1: FieldElement,
}

/// A private key is a field element.
pub type PrivateKey = FieldElement;

/// The secret shared by the signer and the designated verifier.
pub type ChannelKey = [u8; 32];

/// A signature: five field elements.
#[derive(Clone, Copy, Debug)]
pub struct Signature {
    pub sigma_1: FieldElement,
    pub sigma_2: FieldElement,
    pub sigma_3: FieldElement,
    pub sigma_4: FieldElement,
    pub sigma_5: FieldElement,
}

/// The values of a signature's five components.
pub struct SignatureValue {
    pub s1: int,
    pub s2: int,
    pub s3: int,
    pub s4: int,
    pub s5: int,
}

impl View for Signature {
    type V = SignatureValue;

    open spec fn view(&self) -> SignatureValue {
        SignatureValue {
            s1: self.sigma_1@,
            s2: self.sigma_2@,
            s3: self.sigma_3@,
            s4: self.sigma_4@,
            s5: self.sigma_5@,
        }
    }
}

/// HKDF info string for the public points.
pub const PUBLIC_KEY_INFO: &'static str = "silmarils-public-key";

/// HMAC domain prefix of the per-message nonce.
pub const NONCE_DOMAIN: &'static str = "silmarils-nonce";

/// HMAC domain prefix of the per-message signing key.
pub const PER_MESSAGE_KEY_DOMAIN: &'static str = "silmarils-pmk";

/// Prefix hashed before the seed in the demonstration channel key.
pub const CHANNEL_KEY_DOMAIN: &'static str = "channel-key-derivation:";

// ---------------------------------------------------------------------------------------
// Specifications
// ---------------------------------------------------------------------------------------

/// The bytes of a seed string: the bytes that the digits after a leading "0x" write, when
/// they are a hexadecimal string, and otherwise the string's own bytes.
pub open spec fn seed_material(s: Seq<u8>) -> Seq<u8> {
    if s.len() >= 2 && s[0] == 48 && s[1] == 120 && is_hex(s.skip(2)) {
        hex_decoded(s.skip(2))
    } else {
        s
    }
}

/// The first 32 bytes of `b`, padded with zeros to 32 bytes.
pub open spec fn pad_or_truncate_32(b: Seq<u8>) -> Seq<u8> {
    Seq::new(32, |i: int| if i < b.len() { b[i] } else { 0u8 })
}

/// The private key derived from a seed string's bytes.
pub open spec fn spec_private_key(seed: Seq<u8>) -> int {
    chacha_field_sample(pad_or_truncate_32(seed_material(seed)))
}

/// The public point `w0` of a private key.
pub open spec fn spec_w0(sk: int) -> int {
    be_to_nat(hkdf_sha256_okm(nat_to_be(sk, 32), PUBLIC_KEY_INFO.spec_bytes()).subrange(0, 32))
        % modulus()
}

/// The public point `w1` of a private key.
pub open spec fn spec_w1(sk: int) -> int {
    be_to_nat(hkdf_sha256_okm(nat_to_be(sk, 32), PUBLIC_KEY_INFO.spec_bytes()).subrange(32, 64))
        % modulus()
}

/// The per-message nonce `HMAC_k("silmarils-nonce" || M)`, reduced into the field.
pub open spec fn spec_nonce(channel_key: Seq<u8>, message: Seq<u8>) -> int {
    be_to_nat(hmac_sha256_tag(channel_key, NONCE_DOMAIN.spec_bytes() + message)) % modulus()
}

/// The receipt field element `SHA-256(M || encode(n))`.
pub open spec fn spec_receipt_hash(message: Seq<u8>, nonce: int) -> int {
    be_to_nat(sha256_digest(message + nat_to_be(nonce, 32))) % modulus()
}

/// The receipt of a message under a channel key.
pub open spec fn spec_receipt(message: Seq<u8>, channel_key: Seq<u8>) -> int {
    spec_receipt_hash(message, spec_nonce(channel_key, message))
}

/// The per-message signing key `HMAC_K("silmarils-pmk" || M)`, reduced into the field.
pub open spec fn spec_per_message_key(sk: int, message: Seq<u8>) -> int {
    be_to_nat(hmac_sha256_tag(nat_to_be(sk, 32), PER_MESSAGE_KEY_DOMAIN.spec_bytes() + message))
        % modulus()
}

/// The linear coefficient of the polynomial that shares a key: the first random element
/// of a ChaCha20 generator seeded with the SHA-256 digest of the key's bytes.
pub open spec fn spec_key_share_coefficient(key: int) -> int {
    chacha_field_sample(sha256_digest(nat_to_be(key, 32)))
}

/// The signature components for public points `w0`, `w1`, receipt field element `r`,
/// per-message key `k` shared on the line `k + kc x`, and `epsilon` shared on the line
/// `epsilon + c x`, with the random divisor `b` and multiplier `d`.
pub open spec fn sign_values(
    w0: int,
    w1: int,
    r: int,
    k: int,
    kc: int,
    epsilon: int,
    b: int,
    d: int,
    c: int,
) -> SignatureValue {
    let s0 = poly_eval(seq![k, kc], w0);
    let s1 = poly_eval(seq![k, kc], w1);
    let e0 = poly_eval(seq![epsilon, c], w0);
    let e1 = poly_eval(seq![epsilon, c], w1);
    SignatureValue {
        s1: fmul(b, fsub(k, r)),
        s2: fdiv(d, b),
        s3: fmul(s1, d),
        s4: fdiv(fmul(e1, d), epsilon),
        s5: fmul(d, fsub(s0, fdiv(fmul(e0, r), epsilon))),
    }
}

/// The signature of `message` by `sk` for the channel key, given the signer's random
/// values `alpha`, `beta`, `b`, `d` and the linear coefficient `c` of the sharing of
/// `epsilon = alpha * beta`.
pub open spec fn spec_sign(
    message: Seq<u8>,
    sk: int,
    channel_key: Seq<u8>,
    alpha: int,
    beta: int,
    b: int,
    d: int,
    c: int,
) -> SignatureValue {
    let k = spec_per_message_key(sk, message);
    sign_values(
        spec_w0(sk),
        spec_w1(sk),
        spec_receipt(message, channel_key),
        k,
        spec_key_share_coefficient(k),
        fmul(alpha, beta),
        b,
        d,
        c,
    )
}

/// What signing gives for the drawn values: nothing when `b` or `epsilon = alpha * beta`
/// is zero (both are divisors), otherwise the signature `spec_sign`.
pub open spec fn spec_sign_outcome(
    message: Seq<u8>,
    sk: int,
    channel_key: Seq<u8>,
    alpha: int,
    beta: int,
    b: int,
    d: int,
    c: int,
) -> Option<SignatureValue> {
    if b == 0 || fmul(alpha, beta) == 0 {
        None
    } else {
        Some(spec_sign(message, sk, channel_key, alpha, beta, b, d, c))
    }
}

/// The value of an optional signature.
pub open spec fn signature_option_view(sig: Option<Signature>) -> Option<SignatureValue> {
    match sig {
        Some(s) => Some(s@),
        None => None,
    }
}

/// The verification share at `w0`.
pub open spec fn verification_v0(sig: SignatureValue) -> int {
    fsub(fmul(sig.s1, sig.s2), sig.s5)
}

/// The verification share at `w1` for the receipt field element `r`.
pub open spec fn verification_v1(r: int, sig: SignatureValue) -> int {
    fadd(fsub(fmul(sig.s1, sig.s2), sig.s3), fmul(r, sig.s4))
}

/// The verification shares interpolate to zero at zero.
pub open spec fn verification_equation(r: int, sig: SignatureValue, w0: int, w1: int) -> bool {
    interpolate_at_zero(seq![w0, w1], seq![verification_v0(sig), verification_v1(r, sig)], 2)
        == 0
}

/// Verification against a receipt field element: `sigma_4` is nonzero and the verification
/// equation holds.
pub open spec fn spec_verify_inner(r: int, sig: SignatureValue, w0: int, w1: int) -> bool {
    sig.s4 != 0 && verification_equation(r, sig, w0, w1)
}

/// The unauthenticated receipt field element `SHA-256(M)`.
pub open spec fn spec_unauthenticated_receipt(message: Seq<u8>) -> int {
    be_to_nat(sha256_digest(message)) % modulus()
}

/// The nonce reads the entire message: it is the HMAC-SHA-256 tag, under the channel key,
/// of the nonce domain followed by every byte of the message, reduced into the field; two
/// messages whose tags agree get the same nonce.
pub proof fn lemma_nonce_reads_whole_message(channel_key: Seq<u8>, message: Seq<u8>)
    ensures
        spec_nonce(channel_key, message) == be_to_nat(
            hmac_sha256_tag(channel_key, NONCE_DOMAIN.spec_bytes() + message),
        ) % modulus(),
        0 <= spec_nonce(channel_key, message) < modulus(),
        forall|other: Seq<u8>|
            #[trigger] hmac_sha256_tag(channel_key, NONCE_DOMAIN.spec_bytes() + other)
                == hmac_sha256_tag(channel_key, NONCE_DOMAIN.spec_bytes() + message)
                ==> spec_nonce(channel_key, other) == spec_nonce(channel_key, message),
{
    lemma_cong_mod(be_to_nat(hmac_sha256_tag(channel_key, NONCE_DOMAIN.spec_bytes() + message)));
}

/// The receipt reads the entire message: it is the SHA-256 digest of every byte of the
/// message followed by the 32 big-endian bytes of the nonce, whose HMAC input is the nonce
/// domain followed by every byte of the message, reduced into the field.
pub proof fn lemma_receipt_reads_whole_message(message: Seq<u8>, channel_key: Seq<u8>)
    ensures
        spec_receipt(message, channel_key) == be_to_nat(
            sha256_digest(
                message + nat_to_be(
                    be_to_nat(hmac_sha256_tag(channel_key, NONCE_DOMAIN.spec_bytes() + message))
                        % modulus(),
                    32,
                ),
            ),
        ) % modulus(),
        0 <= spec_receipt(message, channel_key) < modulus(),
{
    lemma_nonce_reads_whole_message(channel_key, message);
    lemma_receipt_range(message, channel_key);
}

/// The public receipt of unauthenticated verification reads the entire message: it is the
/// SHA-256 digest of every byte of the message, reduced into the field; two messages with
/// the same digest get the same receipt.
pub proof fn lemma_unauthenticated_receipt_reads_whole_message(message: Seq<u8>)
    ensures
        spec_unauthenticated_receipt(message) == be_to_nat(sha256_digest(message)) % modulus(),
        0 <= spec_unauthenticated_receipt(message) < modulus(),
        forall|other: Seq<u8>|
            #[trigger] sha256_digest(other) == sha256_digest(message)
                ==> spec_unauthenticated_receipt(other) == spec_unauthenticated_receipt(message),
{
    lemma_cong_mod(be_to_nat(sha256_digest(message)));
}

/// The signature that the algebraic forgery builds for `new_message` from `sig`.
pub open spec fn spec_forge(
    sig: SignatureValue,
    new_message: Seq<u8>,
    w0: int,
    w1: int,
) -> SignatureValue {
    let r = spec_unauthenticated_receipt(new_message);
    let s1 = fadd(sig.s1, 1);
    let s2 = fadd(sig.s2, 2);
    let s3 = fadd(sig.s3, 3);
    let s4 = fadd(sig.s4, 4);
    let v1 = fadd(fsub(fmul(s1, s2), s3), fmul(r, s4));
    SignatureValue { s1, s2, s3, s4, s5: fsub(fmul(s1, s2), fdiv(fmul(v1, w0), w1)) }
}

// ---------------------------------------------------------------------------------------
// Byte helpers
// ---------------------------------------------------------------------------------------

/// The concatenation of two byte strings.
fn concat(a: &[u8], b: &[u8]) -> (r: Vec<u8>)
    ensures
        r@ == a@ + b@,
{
    let mut r: Vec<u8> = Vec::new();
    let mut i: usize = 0;
    while i < a.len()
        invariant
            i <= a.len(),
            r@ == a@.take(i as int),
        decreases a.len() - i,
    {
        r.push(a[i]);
        i = i + 1;
        proof {
            assert(a@.take(i as int) =~= a@.take(i - 1).push(a@[i - 1]));
        }
    }
    let mut j: usize = 0;
    while j < b.len()
        invariant
            i == a.len(),
            j <= b.len(),
            r@ == a@ + b@.take(j as int),
        decreases b.len() - j,
    {
        r.push(b[j]);
        j = j + 1;
        proof {
            assert(b@.take(j as int) =~= b@.take(j - 1).push(b@[j - 1]));
        }
    }
    proof {
        assert(a@.take(a.len() as int) =~= a@);
        assert(b@.take(b.len() as int) =~= b@);
    }
    r
}

// ---------------------------------------------------------------------------------------
// Keys
// ---------------------------------------------------------------------------------------

/// Derives a private key from a seed string. A seed of the form "0x" followed by an even
/// number of hexadecimal digits stands for the bytes those digits write; any other seed
/// stands for its own bytes. The bytes, truncated or zero-padded to 32, seed a ChaCha20
/// generator, whose first random field element is the key.
pub fn derive_private_key(seed: &str) -> (key: PrivateKey)
    ensures
        key@ == spec_private_key(seed.spec_bytes()),
{
    let bytes = seed.as_bytes();
    let mut material: Vec<u8> = Vec::new();
    let mut decoded = false;
    if bytes.len() >= 2 && bytes[0] == 48u8 && bytes[1] == 120u8 {
        let digits = slice_subrange(bytes, 2, bytes.len());
        proof {
            assert(digits@ =~= bytes@.skip(2));
        }
        match hex_decode(digits) {
            Some(v) => {
                material = v;
                decoded = true;
            },
            None => {},
        }
    }
    if !decoded {
        material = concat(bytes, &[]);
        proof {
            assert(material@ =~= bytes@);
        }
    }
    let ghost m = seed_material(seed.spec_bytes());
    assert(material@ == m);
    let mut seed_array = [0u8; 32];
    let copy_len = if material.len() < 32 {
        material.len()
    } else {
        32
    };
    let mut i: usize = 0;
    while i < 32
        invariant
            i <= 32,
            m == material@,
            copy_len == if m.len() < 32 {
                m.len() as usize
            } else {
                32
            },
            forall|k: int|
                0 <= k < i ==> seed_array@[k] == (#[trigger] pad_or_truncate_32(m)[k]),
        decreases 32 - i,
    {
        if i < copy_len {
            seed_array[i] = material[i];
        } else {
            seed_array[i] = 0u8;
        }
        i = i + 1;
    }
    proof {
        assert(seed_array@ =~= pad_or_truncate_32(m));
    }
    ark_rand_from_seed(seed_array)
}

/// Splits a key into two shares at the given points; the sharing polynomial's linear
/// coefficient is drawn from a ChaCha20 generator seeded with the SHA-256 digest of the
/// key's bytes.
fn derive_private_key_shares(
    private_key: &PrivateKey,
    evaluation_points: Vec<FieldElement>,
) -> (r: (Share, Share))
    requires
        evaluation_points.len() == 2,
    ensures
        r.0.x@ == evaluation_points@[0]@,
        r.1.x@ == evaluation_points@[1]@,
        r.0.y@ == poly_eval(
            seq![private_key@, spec_key_share_coefficient(private_key@)],
            evaluation_points@[0]@,
        ),
        r.1.y@ == poly_eval(
            seq![private_key@, spec_key_share_coefficient(private_key@)],
            evaluation_points@[1]@,
        ),
        // the two shares reconstruct the key
        denominators_invertible(seq![evaluation_points@[0]@, evaluation_points@[1]@])
            ==> interpolate_at_zero(
            seq![evaluation_points@[0]@, evaluation_points@[1]@],
            seq![r.0.y@, r.1.y@],
            2,
        ) == private_key@,
{
    let key_bytes = private_key.to_bytes_be();
    let hash = sha256(key_bytes.as_slice());
    let coefficient = ark_rand_from_seed(hash);
    let ghost points = evaluation_points@;
    let mut random_coefficients: Vec<FieldElement> = Vec::new();
    random_coefficients.push(coefficient);
    let shares = split_with_coefficients(
        *private_key,
        2,
        2,
        evaluation_points,
        random_coefficients,
    );
    proof {
        assert(seq![private_key@] + crate::shamir::values(random_coefficients@) =~= seq![
            private_key@,
            coefficient@,
        ]);
        assert(shares@[0].x@ == points[0]@);
        assert(shares@[1].x@ == points[1]@);
        let xs = seq![points[0]@, points[1]@];
        let ys = seq![shares@[0].y@, shares@[1].y@];
        let c = seq![private_key@, coefficient@];
        if denominators_invertible(xs) {
            lemma_field_element_range(points[0]);
            lemma_field_element_range(points[1]);
            lemma_field_element_range(*private_key);
            assert(canonical_points(xs));
            assert(evaluations(c, xs) =~= ys);
            lemma_interpolation(xs, c);
            lemma_interpolate_fsum(xs, ys, 2);
            assert(lagrange_terms(xs, ys).take(2) =~= lagrange_terms(xs, ys));
            lemma_poly_eval_zero(c);
            lemma_canonical(private_key@);
        }
    }
    (shares[0], shares[1])
}

/// Derives the public points `(w0, w1)` from a private key: the two halves of 64 bytes of
/// HKDF-SHA-256 output on the key's bytes, each reduced into the field.
pub fn derive_public_key(private_key: &PrivateKey) -> (pk: PublicKey)
    ensures
        pk.w0@ == spec_w0(private_key@),
        pk.w1@ == spec_w1(private_key@),
{
    let private_key_bytes = private_key.to_bytes_be();
    let okm = hkdf_sha256_expand(private_key_bytes.as_slice(), PUBLIC_KEY_INFO.as_bytes());
    let w0_bytes = slice_subrange(okm.as_slice(), 0, 32);
    let w1_bytes = slice_subrange(okm.as_slice(), 32, 64);
    PublicKey {
        w0: FieldElement::from_be_bytes_mod_order(w0_bytes),
        w1: FieldElement::from_be_bytes_mod_order(w1_bytes),
    }
}

/// The per-message secret nonce `HMAC_k("silmarils-nonce" || M)`, reduced into the field.
fn compute_nonce(channel_key: &ChannelKey, message: &[u8]) -> (n: FieldElement)
    ensures
        n@ == spec_nonce(channel_key@, message@),
{
    let data = concat(NONCE_DOMAIN.as_bytes(), message);
    let tag = hmac_sha256(channel_key.as_slice(), data.as_slice());
    FieldElement::from_be_bytes_mod_order(tag.as_slice())
}

/// The receipt field element `SHA-256(M || encode(n))`.
fn compute_receipt_hash(message: &[u8], nonce: &FieldElement) -> (r: FieldElement)
    ensures
        r@ == spec_receipt_hash(message@, nonce@),
{
    let nonce_bytes = nonce.to_bytes_be();
    let data = concat(message, nonce_bytes.as_slice());
    let hash = sha256(data.as_slice());
    FieldElement::from_be_bytes_mod_order(hash.as_slice())
}

/// The transferable receipt `r = H(M, n)`, which the designated verifier releases after a
/// successful designated verification.
pub fn compute_receipt(message: &[u8], channel_key: &ChannelKey) -> (r: FieldElement)
    ensures
        r@ == spec_receipt(message@, channel_key@),
        // SHA-256 of the whole message and the nonce bytes, the nonce being the HMAC of the
        // nonce domain and the whole message
        r@ == be_to_nat(
            sha256_digest(
                message@ + nat_to_be(
                    be_to_nat(hmac_sha256_tag(channel_key@, NONCE_DOMAIN.spec_bytes() + message@))
                        % modulus(),
                    32,
                ),
            ),
        ) % modulus(),
{
    let nonce = compute_nonce(channel_key, message);
    let r = compute_receipt_hash(message, &nonce);
    proof {
        lemma_receipt_reads_whole_message(message@, channel_key@);
    }
    r
}

// ---------------------------------------------------------------------------------------
// Signing
// ---------------------------------------------------------------------------------------

/// Signs `message` with the given random values: `alpha`, `beta` (whose product `epsilon`
/// is shared), `b`, `d`, and the linear coefficient of the sharing of `epsilon`. `b` and
/// `epsilon` are divisors, so they must be nonzero.
pub fn sign_with_randomness(
    message: &[u8],
    private_key: &PrivateKey,
    channel_key: &ChannelKey,
    alpha: FieldElement,
    beta: FieldElement,
    b: FieldElement,
    d: FieldElement,
    epsilon_coefficient: FieldElement,
) -> (sig: Signature)
    requires
        b@ != 0,
        fmul(alpha@, beta@) != 0,
    ensures
        sig@ == spec_sign(
            message@,
            private_key@,
            channel_key@,
            alpha@,
            beta@,
            b@,
            d@,
            epsilon_coefficient@,
        ),
        has_inverse(b@),
        has_inverse(fmul(alpha@, beta@)),
{
    let public_key = derive_public_key(private_key);
    let nonce = compute_nonce(channel_key, message);
    let hash_fp = compute_receipt_hash(message, &nonce);
    let private_key_bytes = private_key.to_bytes_be();
    let data = concat(PER_MESSAGE_KEY_DOMAIN.as_bytes(), message);
    let per_message_key = hmac_sha256(private_key_bytes.as_slice(), data.as_slice());
    let per_message_key_fp = FieldElement::from_be_bytes_mod_order(per_message_key.as_slice());
    let mut evaluation_points: Vec<FieldElement> = Vec::new();
    evaluation_points.push(public_key.w0);
    evaluation_points.push(public_key.w1);
    let key_shares = derive_private_key_shares(&per_message_key_fp, evaluation_points.clone());
    let epsilon = alpha.mul(&beta);
    let mut epsilon_random: Vec<FieldElement> = Vec::new();
    epsilon_random.push(epsilon_coefficient);
    let epsilon_shares = split_with_coefficients(
        epsilon,
        2,
        2,
        evaluation_points,
        epsilon_random,
    );
    proof {
        assert(seq![epsilon@] + crate::shamir::values(epsilon_random@) =~= seq![
            epsilon@,
            epsilon_coefficient@,
        ]);
        assert(epsilon_shares@[0].y@ == poly_eval(
            seq![epsilon@, epsilon_coefficient@],
            public_key.w0@,
        ));
        assert(epsilon_shares@[1].y@ == poly_eval(
            seq![epsilon@, epsilon_coefficient@],
            public_key.w1@,
        ));
    }
    let sigma_1 = b.mul(&per_message_key_fp.sub(&hash_fp));
    let sigma_2 = d.div(&b);
    let sigma_3 = key_shares.1.y.mul(&d);
    let sigma_4 = epsilon_shares[1].y.mul(&d).div(&epsilon);
    let sigma_5 = d.mul(&key_shares.0.y.sub(&epsilon_shares[0].y.mul(&hash_fp).div(&epsilon)));
    Signature { sigma_1, sigma_2, sigma_3, sigma_4, sigma_5 }
}

/// Signs `message` with the drawn random values, or returns `None` when the draw makes
/// `b` or `epsilon = alpha * beta` zero, since both are divisors.
pub fn sign_from_draws(
    message: &[u8],
    private_key: &PrivateKey,
    channel_key: &ChannelKey,
    alpha: FieldElement,
    beta: FieldElement,
    b: FieldElement,
    d: FieldElement,
    epsilon_coefficient: FieldElement,
) -> (sig: Option<Signature>)
    ensures
        signature_option_view(sig) == spec_sign_outcome(
            message@,
            private_key@,
            channel_key@,
            alpha@,
            beta@,
            b@,
            d@,
            epsilon_coefficient@,
        ),
        sig is Some ==> has_inverse(b@) && has_inverse(fmul(alpha@, beta@)),
{
    if b.is_zero() || alpha.mul(&beta).is_zero() {
        return None;
    }
    let s = sign_with_randomness(
        message,
        private_key,
        channel_key,
        alpha,
        beta,
        b,
        d,
        epsilon_coefficient,
    );
    Some(s)
}

/// Signs `message`, drawing the random values `alpha`, `beta`, `b`, `d` and the linear
/// coefficient of the sharing of `epsilon` from the operating system's generator. The
/// result is `sign_from_draws` on those values: `None` exactly when the draw makes `b` or
/// `epsilon = alpha * beta` zero.
pub fn sign(
    message: &[u8],
    private_key: &PrivateKey,
    channel_key: &ChannelKey,
) -> (sig: Option<Signature>)
    ensures
        exists|alpha: int, beta: int, b: int, d: int, c: int|
            signature_option_view(sig) == #[trigger] spec_sign_outcome(
                message@,
                private_key@,
                channel_key@,
                alpha,
                beta,
                b,
                d,
                c,
            ) && (sig is Some ==> has_inverse(b) && has_inverse(fmul(alpha, beta))),
        sig matches Some(s) ==> exists|alpha: int, beta: int, b: int, d: int, c: int|
            b != 0 && fmul(alpha, beta) != 0 && has_inverse(b) && has_inverse(fmul(alpha, beta))
                && s@ == #[trigger] spec_sign(
                message@,
                private_key@,
                channel_key@,
                alpha,
                beta,
                b,
                d,
                c,
            ),
{
    let alpha = ark_rand_os();
    let beta = ark_rand_os();
    let b = ark_rand_os();
    let d = ark_rand_os();
    let epsilon_coefficient = ark_rand_os();
    let sig = sign_from_draws(
        message,
        private_key,
        channel_key,
        alpha,
        beta,
        b,
        d,
        epsilon_coefficient,
    );
    sig
}

// ---------------------------------------------------------------------------------------
// Verification
// ---------------------------------------------------------------------------------------

/// Reconstructs the value at zero of the two verification shares at `w0`, `w1`.
fn interpolate_verification_shares(
    v_0: FieldElement,
    v_1: FieldElement,
    public_key: &PublicKey,
) -> (r: FieldElement)
    requires
        public_key.w0@ != public_key.w1@,
    ensures
        r@ == interpolate_at_zero(seq![public_key.w0@, public_key.w1@], seq![v_0@, v_1@], 2),
        denominators_invertible(seq![public_key.w0@, public_key.w1@]),
{
    let mut shares: Vec<Share> = Vec::new();
    shares.push(Share { x: public_key.w0, y: v_0 });
    shares.push(Share { x: public_key.w1, y: v_1 });
    proof {
        let xs = crate::shamir::share_xs(shares@);
        assert(xs =~= seq![public_key.w0@, public_key.w1@]);
        assert(crate::shamir::share_ys(shares@) =~= seq![v_0@, v_1@]);
        lemma_field_element_range(public_key.w0);
        lemma_field_element_range(public_key.w1);
        lemma_two_points_denominators(public_key.w0@, public_key.w1@);
    }
    reconstruct(shares.as_slice())
}

/// Unauthenticated verification with the public receipt `r = SHA-256(M)`. An algebraic
/// forgery passes it (see `forge_signature`); it must not be used to accept signatures.
pub fn verify_unauthenticated(
    message: &[u8],
    signature: &Signature,
    public_key: &PublicKey,
) -> (ok: bool)
    requires
        public_key.w0@ != public_key.w1@,
    ensures
        ok == verification_equation(
            spec_unauthenticated_receipt(message@),
            signature@,
            public_key.w0@,
            public_key.w1@,
        ),
        // where sigma_4 is nonzero, it is receipt verification with the receipt SHA-256(M)
        signature.sigma_4@ != 0 ==> ok == spec_verify_inner(
            spec_unauthenticated_receipt(message@),
            signature@,
            public_key.w0@,
            public_key.w1@,
        ),
        // every forgery of a signature for this message passes
        forall|base: SignatureValue|
            has_inverse(public_key.w1@) && signature@ == #[trigger] spec_forge(
                base,
                message@,
                public_key.w0@,
                public_key.w1@,
            ) ==> ok,
{
    let hash = sha256(message);
    let r = FieldElement::from_be_bytes_mod_order(hash.as_slice());
    let v_0 = signature.sigma_1.mul(&signature.sigma_2).sub(&signature.sigma_5);
    let v_1 = signature.sigma_1.mul(&signature.sigma_2).sub(&signature.sigma_3).add(
        &r.mul(&signature.sigma_4),
    );
    let ok = interpolate_verification_shares(v_0, v_1, public_key).is_zero();
    proof {
        lemma_field_element_range(public_key.w0);
        lemma_field_element_range(public_key.w1);
        assert forall|base: SignatureValue|
            has_inverse(public_key.w1@) && signature@ == #[trigger] spec_forge(
                base,
                message@,
                public_key.w0@,
                public_key.w1@,
            ) implies ok by {
            lemma_forgery_accepted(base, message@, public_key.w0@, public_key.w1@);
        }
    }
    ok
}

/// Verification against a receipt field element `r`. Rejects `sigma_4 = 0`, which would
/// remove `r` from the verification equation.
fn verify_inner(r: FieldElement, signature: &Signature, public_key: &PublicKey) -> (ok: bool)
    requires
        signature.sigma_4@ != 0 ==> public_key.w0@ != public_key.w1@,
    ensures
        ok == spec_verify_inner(r@, signature@, public_key.w0@, public_key.w1@),
        signature.sigma_4@ != 0 ==> denominators_invertible(
            seq![public_key.w0@, public_key.w1@],
        ),
{
    if signature.sigma_4.is_zero() {
        return false;
    }
    let sigma_1_sigma_2 = signature.sigma_1.mul(&signature.sigma_2);
    let v_0 = sigma_1_sigma_2.sub(&signature.sigma_5);
    let v_1 = sigma_1_sigma_2.sub(&signature.sigma_3).add(&r.mul(&signature.sigma_4));
    interpolate_verification_shares(v_0, v_1, public_key).is_zero()
}

/// Designated-verifier verification: recomputes the receipt `r = H(M, HMAC_k(M))` with the
/// channel key and checks the signature against it.
pub fn verify_designated(
    message: &[u8],
    signature: &Signature,
    public_key: &PublicKey,
    channel_key: &ChannelKey,
) -> (ok: bool)
    requires
        signature.sigma_4@ != 0 ==> public_key.w0@ != public_key.w1@,
    ensures
        ok == spec_verify_inner(
            spec_receipt(message@, channel_key@),
            signature@,
            public_key.w0@,
            public_key.w1@,
        ),
        signature.sigma_4@ == 0 ==> !ok,
        // a signature of this message, by the key of these public points, for this channel
        // key, with invertible divisors, is accepted where its sigma_4 is nonzero, as it is
        // where the multiplier d and the share of epsilon at w1 are invertible
        forall|sk: int, alpha: int, beta: int, b: int, d: int, c: int|
            has_inverse(b) && has_inverse(fmul(alpha, beta)) && public_key.w0@ == spec_w0(sk)
                && public_key.w1@ == spec_w1(sk) && (signature.sigma_4@ != 0 || has_inverse(d)
                && has_inverse(poly_eval(seq![fmul(alpha, beta), c], public_key.w1@))) && signature@
                == #[trigger] spec_sign(message@, sk, channel_key@, alpha, beta, b, d, c) ==> ok,
        // binding: where w0 and sigma_4 are invertible, an accepted signature verifies
        // against no receipt of another message under this channel key
        ok && has_inverse(public_key.w0@) && has_inverse(signature.sigma_4@) ==> forall|
            other: Seq<u8>,
        |
            #[trigger] spec_receipt(other, channel_key@) != spec_receipt(message@, channel_key@)
                ==> !spec_verify_inner(
                spec_receipt(other, channel_key@),
                signature@,
                public_key.w0@,
                public_key.w1@,
            ),
{
    let nonce = compute_nonce(channel_key, message);
    let r = compute_receipt_hash(message, &nonce);
    let ok = verify_inner(r, signature, public_key);
    proof {
        assert forall|sk: int, alpha: int, beta: int, b: int, d: int, c: int|
            has_inverse(b) && has_inverse(fmul(alpha, beta)) && public_key.w0@ == spec_w0(sk)
                && public_key.w1@ == spec_w1(sk) && (signature.sigma_4@ != 0 || has_inverse(d)
                && has_inverse(poly_eval(seq![fmul(alpha, beta), c], public_key.w1@))) && signature@
                == #[trigger] spec_sign(
                message@,
                sk,
                channel_key@,
                alpha,
                beta,
                b,
                d,
                c,
            ) implies ok by {
            if signature.sigma_4@ == 0 {
                lemma_honest_sigma_4_nonzero(message@, sk, channel_key@, alpha, beta, b, d, c);
            }
            lemma_honest_signature_accepted(message@, sk, channel_key@, alpha, beta, b, d, c);
        }
        if ok && has_inverse(public_key.w0@) && has_inverse(signature.sigma_4@) {
            assert forall|other: Seq<u8>|
                #[trigger] spec_receipt(other, channel_key@) != spec_receipt(
                    message@,
                    channel_key@,
                ) implies !spec_verify_inner(
                spec_receipt(other, channel_key@),
                signature@,
                public_key.w0@,
                public_key.w1@,
            ) by {
                lemma_receipt_range(other, channel_key@);
                lemma_receipt_range(message@, channel_key@);
                if spec_verify_inner(
                    spec_receipt(other, channel_key@),
                    signature@,
                    public_key.w0@,
                    public_key.w1@,
                ) {
                    lemma_receipt_binding(
                        spec_receipt(other, channel_key@),
                        spec_receipt(message@, channel_key@),
                        signature@,
                        public_key.w0@,
                        public_key.w1@,
                    );
                }
            }
        }
    }
    ok
}

/// Third-party verification with a receipt released by the designated verifier.
pub fn verify_with_receipt(
    signature: &Signature,
    public_key: &PublicKey,
    receipt: FieldElement,
) -> (ok: bool)
    requires
        signature.sigma_4@ != 0 ==> public_key.w0@ != public_key.w1@,
    ensures
        ok == spec_verify_inner(receipt@, signature@, public_key.w0@, public_key.w1@),
        signature.sigma_4@ == 0 ==> !ok,
        // the receipt of a message accepts a signature of that message, by the key of these
        // public points, for the same channel key, with invertible divisors, where its
        // sigma_4 is nonzero or the multiplier d and the share of epsilon at w1 are invertible
        forall|message: Seq<u8>,
            channel_key: Seq<u8>,
            sk: int,
            alpha: int,
            beta: int,
            b: int,
            d: int,
            c: int,
        |
            has_inverse(b) && has_inverse(fmul(alpha, beta)) && receipt@ == spec_receipt(
                message,
                channel_key,
            ) && public_key.w0@ == spec_w0(sk) && public_key.w1@ == spec_w1(sk)
                && (signature.sigma_4@ != 0 || has_inverse(d) && has_inverse(
                poly_eval(seq![fmul(alpha, beta), c], public_key.w1@),
            )) && signature@ == #[trigger] spec_sign(
                message,
                sk,
                channel_key,
                alpha,
                beta,
                b,
                d,
                c,
            ) ==> ok,
        // binding: where w0 and sigma_4 are invertible, an accepted signature verifies
        // against no other receipt
        ok && has_inverse(public_key.w0@) && has_inverse(signature.sigma_4@) ==> forall|
            other: int,
        |
            0 <= other < modulus() && other != receipt@ ==> !#[trigger] spec_verify_inner(
                other,
                signature@,
                public_key.w0@,
                public_key.w1@,
            ),
{
    let ok = verify_inner(receipt, signature, public_key);
    proof {
        assert forall|message: Seq<u8>,
            channel_key: Seq<u8>,
            sk: int,
            alpha: int,
            beta: int,
            b: int,
            d: int,
            c: int,
        |
            has_inverse(b) && has_inverse(fmul(alpha, beta)) && receipt@ == spec_receipt(
                message,
                channel_key,
            ) && public_key.w0@ == spec_w0(sk) && public_key.w1@ == spec_w1(sk)
                && (signature.sigma_4@ != 0 || has_inverse(d) && has_inverse(
                poly_eval(seq![fmul(alpha, beta), c], public_key.w1@),
            )) && signature@ == #[trigger] spec_sign(
                message,
                sk,
                channel_key,
                alpha,
                beta,
                b,
                d,
                c,
            ) implies ok by {
            if signature.sigma_4@ == 0 {
                lemma_honest_sigma_4_nonzero(message, sk, channel_key, alpha, beta, b, d, c);
            }
            lemma_honest_signature_accepted(message, sk, channel_key, alpha, beta, b, d, c);
        }
        if ok && has_inverse(public_key.w0@) && has_inverse(signature.sigma_4@) {
            assert forall|other: int|
                0 <= other < modulus() && other != receipt@ implies !#[trigger] spec_verify_inner(
                other,
                signature@,
                public_key.w0@,
                public_key.w1@,
            ) by {
                lemma_field_element_range(receipt);
                if spec_verify_inner(other, signature@, public_key.w0@, public_key.w1@) {
                    lemma_receipt_binding(
                        other,
                        receipt@,
                        signature@,
                        public_key.w0@,
                        public_key.w1@,
                    );
                }
            }
        }
    }
    ok
}

/// The algebraic forgery against unauthenticated verification: perturbs four components of
/// a signature and solves the verification equation for the fifth with `r' = SHA-256(M')`.
pub fn forge_signature(
    original_message: &[u8],
    original_signature: &Signature,
    new_message: &[u8],
    public_key: &PublicKey,
) -> (forged: Signature)
    requires
        public_key.w1@ != 0,
    ensures
        forged@ == spec_forge(
            original_signature@,
            new_message@,
            public_key.w0@,
            public_key.w1@,
        ),
        has_inverse(public_key.w1@),
{
    let hash = sha256(new_message);
    let r_prime = FieldElement::from_be_bytes_mod_order(hash.as_slice());
    let sigma_1_prime = original_signature.sigma_1.add(&FieldElement::from_u64(1));
    let sigma_2_prime = original_signature.sigma_2.add(&FieldElement::from_u64(2));
    let sigma_3_prime = original_signature.sigma_3.add(&FieldElement::from_u64(3));
    let sigma_4_prime = original_signature.sigma_4.add(&FieldElement::from_u64(4));
    let v_1_prime = sigma_1_prime.mul(&sigma_2_prime).sub(&sigma_3_prime).add(
        &r_prime.mul(&sigma_4_prime),
    );
    let sigma_5_prime = sigma_1_prime.mul(&sigma_2_prime).sub(
        &v_1_prime.mul(&public_key.w0).div(&public_key.w1),
    );
    Signature {
        sigma_1: sigma_1_prime,
        sigma_2: sigma_2_prime,
        sigma_3: sigma_3_prime,
        sigma_4: sigma_4_prime,
        sigma_5: sigma_5_prime,
    }
}

/// A demonstration channel key derived from a seed: `SHA-256("channel-key-derivation:" ||
/// seed)`. A deployment takes the pairwise secret from the authenticated channel instead.
pub fn demo_channel_key(seed: &str) -> (key: ChannelKey)
    ensures
        key@ == sha256_digest(CHANNEL_KEY_DOMAIN.spec_bytes() + seed.spec_bytes()),
{
    let data = concat(CHANNEL_KEY_DOMAIN.as_bytes(), seed.as_bytes());
    sha256(data.as_slice())
}

/// A receipt is a canonical field value.
proof fn lemma_receipt_range(message: Seq<u8>, channel_key: Seq<u8>)
    ensures
        0 <= spec_receipt(message, channel_key) < modulus(),
{
    let nonce = spec_nonce(channel_key, message);
    lemma_cong_mod(be_to_nat(sha256_digest(message + nat_to_be(nonce, 32))));
}

/// With two distinct points, both Lagrange denominators are nonzero.
proof fn lemma_two_points_denominators(w0: int, w1: int)
    requires
        0 <= w0 < modulus(),
        0 <= w1 < modulus(),
        w0 != w1,
    ensures
        crate::shamir::denominators_nonzero(seq![w0, w1]),
{
    let xs = seq![w0, w1];
    reveal_with_fuel(crate::shamir::prod_except, 3);
    lemma_fsub_zero(w0, w1);
    lemma_fsub_zero(w1, w0);
    lemma_fmul_one(fsub(w0, w1));
    lemma_fmul_one(fsub(w1, w0));
    assert(crate::shamir::lagrange_denominator(xs, 0) == fmul(1, fsub(w0, w1)));
    assert(crate::shamir::lagrange_denominator(xs, 1) == fmul(1, fsub(w1, w0)));
}

} // verus!
